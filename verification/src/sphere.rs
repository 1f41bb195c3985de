use vstd::prelude::*;
use crate::aabb::AABB;
use crate::interval::Interval;
use crate::plane::{dot_wide, lemma_sdot_bound};
use crate::ray::Ray;
use crate::vec3::{lemma_mul_bound, Vec3, COORD_LIMIT};

verus! {

/// A sphere, possibly moving: its center is a ray (position at cast time
/// zero plus per-time-unit motion), with an exactly cached box covering the
/// whole motion.
///
/// The crossing parameters of a ray with a sphere are the roots of a
/// quadratic — square roots, which the exact rational substrate cannot
/// carry, so the sphere cannot return the nearest-hit record the planar
/// primitives do and stays outside their closed set. What is exactly
/// decidable is verified here: the cached boxes, and whether the ray's line
/// meets the sphere at all (the sign of the discriminant). The numeric
/// roots, the surface coordinates and the cone-solid-angle density live with
/// the floating-point renderer.
#[derive(Clone, Copy, Debug, PartialEq, Eq, Structural)]
pub struct Sphere {
    pub center: Ray,
    pub radius: i64,
    pub mat: usize,
    pub bounding_box: AABB,
}

/// The discriminant of the ray/sphere quadratic at the ray's cast time,
/// exactly: with the offset from the ray's origin to the center then,
/// h^2 - (d.d)(oc.oc - radius^2) for h = d.oc.
pub open spec fn spec_discriminant(s: Sphere, ray: Ray) -> int {
    let cx = s.center.orig.x + ray.tm * s.center.dir.x;
    let cy = s.center.orig.y + ray.tm * s.center.dir.y;
    let cz = s.center.orig.z + ray.tm * s.center.dir.z;
    let ocx = cx - ray.orig.x;
    let ocy = cy - ray.orig.y;
    let ocz = cz - ray.orig.z;
    let aa = Vec3::sdot(ray.dir, ray.dir);
    let h = ray.dir.x * ocx + ray.dir.y * ocy + ray.dir.z * ocz;
    let cc = ocx * ocx + ocy * ocy + ocz * ocz - s.radius * s.radius;
    h * h - aa * cc
}

impl Sphere {
    pub fn new_stationary(static_center: &Vec3, radius: i64, mat: usize) -> (r: Sphere)
        requires
            static_center.in_bounds(COORD_LIMIT as int),
            radius <= COORD_LIMIT,
            radius >= 0 ==> {
                &&& -COORD_LIMIT <= static_center.x - radius
                &&& static_center.x + radius <= COORD_LIMIT
                &&& -COORD_LIMIT <= static_center.y - radius
                &&& static_center.y + radius <= COORD_LIMIT
                &&& -COORD_LIMIT <= static_center.z - radius
                &&& static_center.z + radius <= COORD_LIMIT
            },
        ensures
            r.center.orig == *static_center,
            r.center.dir.is_zero(),
            r.mat == mat,
            ({
                let rad = if radius >= 0 { radius } else { 0 };
                &&& r.radius == rad
                &&& r.bounding_box.x == Interval::spec_pad(Interval {
                    min: (static_center.x - rad) as i64,
                    max: (static_center.x + rad) as i64,
                })
                &&& r.bounding_box.y == Interval::spec_pad(Interval {
                    min: (static_center.y - rad) as i64,
                    max: (static_center.y + rad) as i64,
                })
                &&& r.bounding_box.z == Interval::spec_pad(Interval {
                    min: (static_center.z - rad) as i64,
                    max: (static_center.z + rad) as i64,
                })
            }),
    {
        let rad: i64 = if radius >= 0 { radius } else { 0 };
        let rvec: Vec3 = Vec3::new(rad, rad, rad);
        let bounding_box: AABB = AABB::from_point(&static_center.sub(&rvec),
            &static_center.add(&rvec));
        Sphere {
            center: Ray::new(static_center, &Vec3::new(0, 0, 0)),
            radius: rad,
            mat,
            bounding_box,
        }
    }

    pub fn new_moving(center1: &Vec3, center2: &Vec3, radius: i64, mat: usize) -> (r: Sphere)
        requires
            center1.in_bounds(COORD_LIMIT as int),
            center2.in_bounds(COORD_LIMIT as int),
            radius <= COORD_LIMIT,
            radius >= 0 ==> {
                &&& -COORD_LIMIT <= center1.x - radius && center1.x + radius <= COORD_LIMIT
                &&& -COORD_LIMIT <= center1.y - radius && center1.y + radius <= COORD_LIMIT
                &&& -COORD_LIMIT <= center1.z - radius && center1.z + radius <= COORD_LIMIT
                &&& -COORD_LIMIT <= center2.x - radius && center2.x + radius <= COORD_LIMIT
                &&& -COORD_LIMIT <= center2.y - radius && center2.y + radius <= COORD_LIMIT
                &&& -COORD_LIMIT <= center2.z - radius && center2.z + radius <= COORD_LIMIT
            },
        ensures
            r.center.orig == *center1,
            r.center.dir.x == center2.x - center1.x,
            r.center.dir.y == center2.y - center1.y,
            r.center.dir.z == center2.z - center1.z,
            r.mat == mat,
            ({
                let rad = if radius >= 0 { radius } else { 0 };
                &&& r.radius == rad
                &&& r.bounding_box.x == Interval::spec_pad(Interval::spec_union(
                    Interval::spec_pad(Interval {
                        min: (center1.x - rad) as i64,
                        max: (center1.x + rad) as i64,
                    }),
                    Interval::spec_pad(Interval {
                        min: (center2.x - rad) as i64,
                        max: (center2.x + rad) as i64,
                    }),
                ))
                &&& r.bounding_box.y == Interval::spec_pad(Interval::spec_union(
                    Interval::spec_pad(Interval {
                        min: (center1.y - rad) as i64,
                        max: (center1.y + rad) as i64,
                    }),
                    Interval::spec_pad(Interval {
                        min: (center2.y - rad) as i64,
                        max: (center2.y + rad) as i64,
                    }),
                ))
                &&& r.bounding_box.z == Interval::spec_pad(Interval::spec_union(
                    Interval::spec_pad(Interval {
                        min: (center1.z - rad) as i64,
                        max: (center1.z + rad) as i64,
                    }),
                    Interval::spec_pad(Interval {
                        min: (center2.z - rad) as i64,
                        max: (center2.z + rad) as i64,
                    }),
                ))
            }),
    {
        let rad: i64 = if radius >= 0 { radius } else { 0 };
        let rvec: Vec3 = Vec3::new(rad, rad, rad);
        let box1: AABB = AABB::from_point(&center1.sub(&rvec), &center1.add(&rvec));
        let box2: AABB = AABB::from_point(&center2.sub(&rvec), &center2.add(&rvec));
        let bounding_box: AABB = AABB::from_bounding_box(&box1, &box2);
        Sphere {
            center: Ray::new(center1, &center2.sub(center1)),
            radius: rad,
            mat,
            bounding_box,
        }
    }

    /// Whether the ray's parametric line meets the sphere at the ray's cast
    /// time: true exactly when the quadratic's discriminant is nonnegative.
    /// (Where along the line the crossings lie is irrational and left to the
    /// renderer's numeric roots.)
    pub fn hit_possible(&self, ray: &Ray) -> (r: bool)
        requires
            self.center.orig.in_bounds(COORD_LIMIT as int),
            self.center.dir.in_bounds(2 * COORD_LIMIT as int),
            0 <= self.radius <= COORD_LIMIT,
            ray.in_bounds(COORD_LIMIT as int),
            -COORD_LIMIT <= ray.tm <= COORD_LIMIT,
            -COORD_LIMIT <= self.center.orig.x + ray.tm * self.center.dir.x <= COORD_LIMIT,
            -COORD_LIMIT <= self.center.orig.y + ray.tm * self.center.dir.y <= COORD_LIMIT,
            -COORD_LIMIT <= self.center.orig.z + ray.tm * self.center.dir.z <= COORD_LIMIT,
        ensures
            r == (spec_discriminant(*self, *ray) >= 0),
    {
        proof {
            lemma_mul_bound(ray.tm as int, self.center.dir.x as int, COORD_LIMIT as int,
                2 * COORD_LIMIT as int);
            lemma_mul_bound(ray.tm as int, self.center.dir.y as int, COORD_LIMIT as int,
                2 * COORD_LIMIT as int);
            lemma_mul_bound(ray.tm as int, self.center.dir.z as int, COORD_LIMIT as int,
                2 * COORD_LIMIT as int);
            lemma_sdot_bound(ray.dir, ray.dir, COORD_LIMIT as int, COORD_LIMIT as int);
        }
        let cx: i128 = self.center.orig.x as i128 + (ray.tm as i128) * (self.center.dir.x as i128);
        let cy: i128 = self.center.orig.y as i128 + (ray.tm as i128) * (self.center.dir.y as i128);
        let cz: i128 = self.center.orig.z as i128 + (ray.tm as i128) * (self.center.dir.z as i128);
        let ocx: i128 = cx - ray.orig.x as i128;
        let ocy: i128 = cy - ray.orig.y as i128;
        let ocz: i128 = cz - ray.orig.z as i128;
        let aa: i128 = dot_wide(ray.direction(), ray.direction());
        proof {
            lemma_mul_bound(ray.dir.x as int, ocx as int, COORD_LIMIT as int, 0x1_0000);
            lemma_mul_bound(ray.dir.y as int, ocy as int, COORD_LIMIT as int, 0x1_0000);
            lemma_mul_bound(ray.dir.z as int, ocz as int, COORD_LIMIT as int, 0x1_0000);
            lemma_mul_bound(ocx as int, ocx as int, 0x1_0000, 0x1_0000);
            lemma_mul_bound(ocy as int, ocy as int, 0x1_0000, 0x1_0000);
            lemma_mul_bound(ocz as int, ocz as int, 0x1_0000, 0x1_0000);
            lemma_mul_bound(self.radius as int, self.radius as int, COORD_LIMIT as int,
                COORD_LIMIT as int);
        }
        let h: i128 = (ray.dir.x as i128) * ocx + (ray.dir.y as i128) * ocy + (ray.dir.z as i128)
            * ocz;
        let cc: i128 = ocx * ocx + ocy * ocy + ocz * ocz - (self.radius as i128) * (
        self.radius as i128);
        proof {
            lemma_mul_bound(h as int, h as int, 0x1_8000_0000, 0x1_8000_0000);
            lemma_mul_bound(aa as int, cc as int, 0xC000_0000, 0x4_0000_0000);
        }
        h * h - aa * cc >= 0
    }
}

} // verus!
