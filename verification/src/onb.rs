use vstd::prelude::*;
use crate::vec3::{Axis, Vec3};

verus! {

/// Bound on the normal an orthogonal basis is built around, keeping every
/// basis product within the machine integers. Wider normals (a plane's cached
/// cross product can reach four times the squared coordinate bound) must be
/// scaled down by the caller first; only the direction matters to the frame.
pub const ONB_NORMAL_LIMIT: i64 = 0x10_0000;

/// Names one of the three basis vectors of a local frame.
#[derive(Clone, Copy, Debug, PartialEq, Eq, Structural)]
pub enum BasisAxis {
    U,
    V,
    W,
}

impl BasisAxis {
    /// The three basis axes in order.
    pub fn iterator() -> (axes: Vec<BasisAxis>)
        ensures
            axes@ == seq![BasisAxis::U, BasisAxis::V, BasisAxis::W],
    {
        let mut axes: Vec<BasisAxis> = Vec::new();
        axes.push(BasisAxis::U);
        axes.push(BasisAxis::V);
        axes.push(BasisAxis::W);
        proof {
            assert(axes@ =~= seq![BasisAxis::U, BasisAxis::V, BasisAxis::W]);
        }
        axes
    }
}

/// A right-handed orthogonal frame built around a normal vector. On the
/// integer grid the three vectors are exactly mutually orthogonal; their
/// lengths are left to the caller's scale (normalizing is irrational).
#[derive(Clone, Copy, Debug, PartialEq, Eq, Structural)]
pub struct ONB {
    pub u: Vec3,
    pub v: Vec3,
    pub w: Vec3,
}

impl ONB {
    /// The three vectors are mutually orthogonal, and the frame is nonzero.
    pub open spec fn wf(self) -> bool {
        &&& Vec3::sdot(self.u, self.v) == 0
        &&& Vec3::sdot(self.u, self.w) == 0
        &&& Vec3::sdot(self.v, self.w) == 0
        &&& !self.w.is_zero()
    }

    /// Build the frame around `n`: cross `n` with whichever world axis is
    /// least aligned with it, then cross again.
    #[verifier::rlimit(100)]
    pub fn new(n: &Vec3) -> (r: ONB)
        requires
            n.in_bounds(ONB_NORMAL_LIMIT as int),
            !n.is_zero(),
        ensures
            r.wf(),
            r.w == *n,
            !r.u.is_zero(),
            !r.v.is_zero(),
            r.u.in_bounds(0x200_0000_0000),
            r.v.in_bounds(ONB_NORMAL_LIMIT as int),
    {
        let w: Vec3 = *n;
        proof {
            crate::plane::lemma_sdot_bound(w, w, ONB_NORMAL_LIMIT as int, ONB_NORMAL_LIMIT as int);
            crate::vec3::lemma_mul_bound(w.x as int, w.x as int, ONB_NORMAL_LIMIT as int,
                ONB_NORMAL_LIMIT as int);
        }
        let nn: i64 = w.length_squared();
        let x_dominant: bool = 100 * (w.x * w.x) > 81 * nn;
        let a: Vec3 = if x_dominant {
            Vec3 { x: 0, y: 1, z: 0 }
        } else {
            Vec3 { x: 1, y: 0, z: 0 }
        };
        let v: Vec3 = Vec3::cross(&w, &a);
        proof {
            crate::plane::lemma_scross_bound(w, a, ONB_NORMAL_LIMIT as int, 1);
            if x_dominant {
                assert(v.x == -w.z && v.y == 0 && v.z == w.x) by (nonlinear_arith)
                    requires
                        v.x == w.y * a.z - w.z * a.y,
                        v.y == w.z * a.x - w.x * a.z,
                        v.z == w.x * a.y - w.y * a.x,
                        a.x == 0 && a.y == 1 && a.z == 0,
                ;
                assert(w.x != 0) by (nonlinear_arith)
                    requires
                        100 * (w.x * w.x) > 81 * (w.x * w.x + w.y * w.y + w.z * w.z),
                ;
            } else {
                assert(v.x == 0 && v.y == w.z && v.z == -w.y) by (nonlinear_arith)
                    requires
                        v.x == w.y * a.z - w.z * a.y,
                        v.y == w.z * a.x - w.x * a.z,
                        v.z == w.x * a.y - w.y * a.x,
                        a.x == 1 && a.y == 0 && a.z == 0,
                ;
                if w.y == 0 && w.z == 0 {
                    assert(false) by (nonlinear_arith)
                        requires
                            !(100 * (w.x * w.x) > 81 * (w.x * w.x + w.y * w.y + w.z * w.z)),
                            w.y == 0 && w.z == 0,
                            w.x != 0,
                    ;
                }
            }
        }
        let u: Vec3 = Vec3::cross(&w, &v);
        proof {
            crate::plane::lemma_scross_bound(w, v, ONB_NORMAL_LIMIT as int,
                ONB_NORMAL_LIMIT as int);
            if x_dominant {
                // the second basis vector has a strictly negative middle
                // component: the frame never collapses
                assert(u.y < 0) by (nonlinear_arith)
                    requires
                        u.y == w.z * v.x - w.x * v.z,
                        v.x == -w.z,
                        v.z == w.x,
                        w.x != 0,
                ;
            } else {
                assert(u.x < 0) by (nonlinear_arith)
                    requires
                        u.x == w.y * v.z - w.z * v.y,
                        v.y == w.z,
                        v.z == -w.y,
                        !(w.y == 0 && w.z == 0),
                ;
            }
            assert(v.x * w.x + v.y * w.y + v.z * w.z == 0) by (nonlinear_arith)
                requires
                    v.x == w.y * a.z - w.z * a.y,
                    v.y == w.z * a.x - w.x * a.z,
                    v.z == w.x * a.y - w.y * a.x,
            ;
            assert(u.x * w.x + u.y * w.y + u.z * w.z == 0) by (nonlinear_arith)
                requires
                    u.x == w.y * v.z - w.z * v.y,
                    u.y == w.z * v.x - w.x * v.z,
                    u.z == w.x * v.y - w.y * v.x,
            ;
            assert(u.x * v.x + u.y * v.y + u.z * v.z == 0) by (nonlinear_arith)
                requires
                    u.x == w.y * v.z - w.z * v.y,
                    u.y == w.z * v.x - w.x * v.z,
                    u.z == w.x * v.y - w.y * v.x,
            ;
        }
        ONB { u, v, w }
    }

    pub fn component(&self, axis: BasisAxis) -> (r: &Vec3)
        ensures
            r == (match axis {
                BasisAxis::U => self.u,
                BasisAxis::V => self.v,
                BasisAxis::W => self.w,
            }),
    {
        match axis {
            BasisAxis::U => &self.u,
            BasisAxis::V => &self.v,
            BasisAxis::W => &self.w,
        }
    }

    /// Map a vector given in basis coordinates into world space.
    pub fn transform(&self, v: &Vec3) -> (r: Vec3)
        requires
            v.in_bounds(0x8000),
            self.u.in_bounds(0x200_0000_0000),
            self.v.in_bounds(0x200_0000_0000),
            self.w.in_bounds(0x200_0000_0000),
        ensures
            r.x == v.x * self.u.x + v.y * self.v.x + v.z * self.w.x,
            r.y == v.x * self.u.y + v.y * self.v.y + v.z * self.w.y,
            r.z == v.x * self.u.z + v.y * self.v.z + v.z * self.w.z,
    {
        proof {
            crate::vec3::lemma_mul_bound(v.x as int, self.u.x as int, 0x8000, 0x200_0000_0000);
            crate::vec3::lemma_mul_bound(v.x as int, self.u.y as int, 0x8000, 0x200_0000_0000);
            crate::vec3::lemma_mul_bound(v.x as int, self.u.z as int, 0x8000, 0x200_0000_0000);
            crate::vec3::lemma_mul_bound(v.y as int, self.v.x as int, 0x8000, 0x200_0000_0000);
            crate::vec3::lemma_mul_bound(v.y as int, self.v.y as int, 0x8000, 0x200_0000_0000);
            crate::vec3::lemma_mul_bound(v.y as int, self.v.z as int, 0x8000, 0x200_0000_0000);
            crate::vec3::lemma_mul_bound(v.z as int, self.w.x as int, 0x8000, 0x200_0000_0000);
            crate::vec3::lemma_mul_bound(v.z as int, self.w.y as int, 0x8000, 0x200_0000_0000);
            crate::vec3::lemma_mul_bound(v.z as int, self.w.z as int, 0x8000, 0x200_0000_0000);
        }
        Vec3 {
            x: v.x * self.u.x + v.y * self.v.x + v.z * self.w.x,
            y: v.x * self.u.y + v.y * self.v.y + v.z * self.w.y,
            z: v.x * self.u.z + v.y * self.v.z + v.z * self.w.z,
        }
    }
}

} // verus!
