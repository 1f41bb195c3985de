use vstd::prelude::*;
use crate::vec3::{Vec3, COORD_LIMIT, VEC_MUL_LIMIT};

verus! {

/// A ray: origin, direction and the time it was cast at (for motion blur).
#[derive(Clone, Copy, Debug, PartialEq, Eq, Structural)]
pub struct Ray {
    pub orig: Vec3,
    pub dir: Vec3,
    pub tm: i64,
}

impl Ray {
    /// Origin and direction on the coordinate grid.
    pub open spec fn in_bounds(self, bound: int) -> bool {
        &&& self.orig.in_bounds(bound)
        &&& self.dir.in_bounds(bound)
    }

    pub fn new(origin: &Vec3, direction: &Vec3) -> (r: Ray)
        ensures
            r.orig == *origin,
            r.dir == *direction,
            r.tm == 0,
    {
        Ray { orig: *origin, dir: *direction, tm: 0 }
    }

    pub fn with_time(origin: &Vec3, direction: &Vec3, time: i64) -> (r: Ray)
        ensures
            r.orig == *origin,
            r.dir == *direction,
            r.tm == time,
    {
        Ray { orig: *origin, dir: *direction, tm: time }
    }

    pub fn origin(&self) -> (r: &Vec3)
        ensures
            r == self.orig,
    {
        &self.orig
    }

    pub fn direction(&self) -> (r: &Vec3)
        ensures
            r == self.dir,
    {
        &self.dir
    }

    pub fn time(&self) -> (r: i64)
        ensures
            r == self.tm,
    {
        self.tm
    }

    /// The point the ray reaches after an integer number of parameter steps.
    pub fn at(&self, t: i64) -> (p: Vec3)
        requires
            self.in_bounds(COORD_LIMIT as int),
            -VEC_MUL_LIMIT <= t <= VEC_MUL_LIMIT,
        ensures
            p.x == self.orig.x + t * self.dir.x,
            p.y == self.orig.y + t * self.dir.y,
            p.z == self.orig.z + t * self.dir.z,
    {
        let step: Vec3 = self.dir.mul(t);
        proof {
            crate::vec3::lemma_mul_bound(t as int, self.dir.x as int, VEC_MUL_LIMIT as int,
                COORD_LIMIT as int);
            crate::vec3::lemma_mul_bound(t as int, self.dir.y as int, VEC_MUL_LIMIT as int,
                COORD_LIMIT as int);
            crate::vec3::lemma_mul_bound(t as int, self.dir.z as int, VEC_MUL_LIMIT as int,
                COORD_LIMIT as int);
        }
        self.orig.add(&step)
    }
}

} // verus!
