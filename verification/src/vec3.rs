use vstd::prelude::*;

verus! {

/// Largest coordinate magnitude the exact geometry admits. Keeping every
/// point, direction and box corner within this grid bound lets all slab-test
/// and plane-equation products fit the machine integers they are computed in.
pub const COORD_LIMIT: i64 = 32768;

/// Bound under which vector sums cannot overflow.
pub const VEC_ADD_LIMIT: i64 = 0x2000_0000_0000_0000;

/// Bound under which componentwise products of two vectors cannot overflow.
pub const VEC_MUL_LIMIT: i64 = 0x4000_0000;

/// Names one of the three world axes, in tie-breaking priority order.
#[derive(Clone, Copy, Debug, PartialEq, Eq, Structural)]
pub enum Axis {
    X,
    Y,
    Z,
}

impl Axis {
    /// The three axes in their priority order.
    pub fn iterator() -> (axes: Vec<Axis>)
        ensures
            axes@ == seq![Axis::X, Axis::Y, Axis::Z],
    {
        let mut axes: Vec<Axis> = Vec::new();
        axes.push(Axis::X);
        axes.push(Axis::Y);
        axes.push(Axis::Z);
        proof {
            assert(axes@ =~= seq![Axis::X, Axis::Y, Axis::Z]);
        }
        axes
    }
}

/// A three-component vector on the integer coordinate grid.
#[derive(Clone, Copy, Debug, PartialEq, Eq, Structural)]
pub struct Vec3 {
    pub x: i64,
    pub y: i64,
    pub z: i64,
}

/// Product of two integers bounded by the product of their bounds.
pub proof fn lemma_mul_bound(a: int, b: int, amax: int, bmax: int)
    by (nonlinear_arith)
    requires
        -amax <= a <= amax,
        -bmax <= b <= bmax,
        0 <= amax,
        0 <= bmax,
    ensures
        -(amax * bmax) <= a * b <= amax * bmax,
{
}

impl Vec3 {
    /// Every component within `bound` in magnitude.
    pub open spec fn in_bounds(self, bound: int) -> bool {
        &&& -bound <= self.x <= bound
        &&& -bound <= self.y <= bound
        &&& -bound <= self.z <= bound
    }

    pub open spec fn spec_component(self, axis: Axis) -> i64 {
        match axis {
            Axis::X => self.x,
            Axis::Y => self.y,
            Axis::Z => self.z,
        }
    }

    pub open spec fn is_zero(self) -> bool {
        self.x == 0 && self.y == 0 && self.z == 0
    }

    /// Exact inner product, as a mathematical integer.
    pub open spec fn sdot(a: Vec3, b: Vec3) -> int {
        a.x * b.x + a.y * b.y + a.z * b.z
    }

    /// Components of the exact cross product, as mathematical integers.
    pub open spec fn scross(a: Vec3, b: Vec3) -> (int, int, int) {
        (a.y * b.z - a.z * b.y, a.z * b.x - a.x * b.z, a.x * b.y - a.y * b.x)
    }

    pub fn new(x: i64, y: i64, z: i64) -> (v: Vec3)
        ensures
            v == (Vec3 { x, y, z }),
    {
        Vec3 { x, y, z }
    }

    pub fn component(&self, axis: Axis) -> (c: i64)
        ensures
            c == self.spec_component(axis),
    {
        match axis {
            Axis::X => self.x,
            Axis::Y => self.y,
            Axis::Z => self.z,
        }
    }

    pub fn add(&self, other: &Vec3) -> (r: Vec3)
        requires
            self.in_bounds(VEC_ADD_LIMIT as int),
            other.in_bounds(VEC_ADD_LIMIT as int),
        ensures
            r.x == self.x + other.x,
            r.y == self.y + other.y,
            r.z == self.z + other.z,
    {
        Vec3 { x: self.x + other.x, y: self.y + other.y, z: self.z + other.z }
    }

    pub fn sub(&self, other: &Vec3) -> (r: Vec3)
        requires
            self.in_bounds(VEC_ADD_LIMIT as int),
            other.in_bounds(VEC_ADD_LIMIT as int),
        ensures
            r.x == self.x - other.x,
            r.y == self.y - other.y,
            r.z == self.z - other.z,
    {
        Vec3 { x: self.x - other.x, y: self.y - other.y, z: self.z - other.z }
    }

    pub fn neg(&self) -> (r: Vec3)
        requires
            self.in_bounds(VEC_ADD_LIMIT as int),
        ensures
            r.x == -self.x,
            r.y == -self.y,
            r.z == -self.z,
    {
        Vec3 { x: -self.x, y: -self.y, z: -self.z }
    }

    /// Componentwise scaling by an integer factor.
    pub fn mul(&self, factor: i64) -> (r: Vec3)
        requires
            self.in_bounds(VEC_MUL_LIMIT as int),
            -VEC_MUL_LIMIT <= factor <= VEC_MUL_LIMIT,
        ensures
            r.x == factor * self.x,
            r.y == factor * self.y,
            r.z == factor * self.z,
    {
        proof {
            lemma_mul_bound(factor as int, self.x as int, VEC_MUL_LIMIT as int, VEC_MUL_LIMIT as int);
            lemma_mul_bound(factor as int, self.y as int, VEC_MUL_LIMIT as int, VEC_MUL_LIMIT as int);
            lemma_mul_bound(factor as int, self.z as int, VEC_MUL_LIMIT as int, VEC_MUL_LIMIT as int);
        }
        Vec3 { x: factor * self.x, y: factor * self.y, z: factor * self.z }
    }

    pub fn length_squared(&self) -> (r: i64)
        requires
            self.in_bounds(VEC_MUL_LIMIT as int),
        ensures
            r == Self::sdot(*self, *self),
            r >= 0,
    {
        proof {
            assert(self.x * self.x >= 0) by (nonlinear_arith);
            assert(self.y * self.y >= 0) by (nonlinear_arith);
            assert(self.z * self.z >= 0) by (nonlinear_arith);
        }
        Self::dot(self, self)
    }

    /// The zero vector is the only grid vector with no extent on any axis.
    pub fn near_zero(&self) -> (r: bool)
        ensures
            r == self.is_zero(),
    {
        self.x == 0 && self.y == 0 && self.z == 0
    }

    pub fn dot(v1: &Vec3, v2: &Vec3) -> (r: i64)
        requires
            v1.in_bounds(VEC_MUL_LIMIT as int),
            v2.in_bounds(VEC_MUL_LIMIT as int),
        ensures
            r == Self::sdot(*v1, *v2),
    {
        proof {
            lemma_mul_bound(v1.x as int, v2.x as int, VEC_MUL_LIMIT as int, VEC_MUL_LIMIT as int);
            lemma_mul_bound(v1.y as int, v2.y as int, VEC_MUL_LIMIT as int, VEC_MUL_LIMIT as int);
            lemma_mul_bound(v1.z as int, v2.z as int, VEC_MUL_LIMIT as int, VEC_MUL_LIMIT as int);
        }
        v1.x * v2.x + v1.y * v2.y + v1.z * v2.z
    }

    pub fn cross(v1: &Vec3, v2: &Vec3) -> (r: Vec3)
        requires
            v1.in_bounds(VEC_MUL_LIMIT as int),
            v2.in_bounds(VEC_MUL_LIMIT as int),
        ensures
            (r.x as int, r.y as int, r.z as int) == Self::scross(*v1, *v2),
            r.x == v1.y * v2.z - v1.z * v2.y,
            r.y == v1.z * v2.x - v1.x * v2.z,
            r.z == v1.x * v2.y - v1.y * v2.x,
    {
        proof {
            lemma_mul_bound(v1.y as int, v2.z as int, VEC_MUL_LIMIT as int, VEC_MUL_LIMIT as int);
            lemma_mul_bound(v1.z as int, v2.y as int, VEC_MUL_LIMIT as int, VEC_MUL_LIMIT as int);
            lemma_mul_bound(v1.z as int, v2.x as int, VEC_MUL_LIMIT as int, VEC_MUL_LIMIT as int);
            lemma_mul_bound(v1.x as int, v2.z as int, VEC_MUL_LIMIT as int, VEC_MUL_LIMIT as int);
            lemma_mul_bound(v1.x as int, v2.y as int, VEC_MUL_LIMIT as int, VEC_MUL_LIMIT as int);
            lemma_mul_bound(v1.y as int, v2.x as int, VEC_MUL_LIMIT as int, VEC_MUL_LIMIT as int);
        }
        Vec3 {
            x: v1.y * v2.z - v1.z * v2.y,
            y: v1.z * v2.x - v1.x * v2.z,
            z: v1.x * v2.y - v1.y * v2.x,
        }
    }

    /// Mirror `v` about the plane orthogonal to `n` (for a unit-square normal,
    /// see `lemma_reflect_mirror`).
    pub fn reflect(v: &Vec3, n: &Vec3) -> (r: Vec3)
        requires
            v.in_bounds(COORD_LIMIT as int),
            n.in_bounds(COORD_LIMIT as int),
        ensures
            r.x == v.x - 2 * Self::sdot(*v, *n) * n.x,
            r.y == v.y - 2 * Self::sdot(*v, *n) * n.y,
            r.z == v.z - 2 * Self::sdot(*v, *n) * n.z,
    {
        let d: i64 = Self::dot(v, n);
        proof {
            lemma_mul_bound(v.x as int, n.x as int, COORD_LIMIT as int, COORD_LIMIT as int);
            lemma_mul_bound(v.y as int, n.y as int, COORD_LIMIT as int, COORD_LIMIT as int);
            lemma_mul_bound(v.z as int, n.z as int, COORD_LIMIT as int, COORD_LIMIT as int);
            lemma_mul_bound(2 * d as int, n.x as int, 0xC000_0000_0000, COORD_LIMIT as int);
            lemma_mul_bound(2 * d as int, n.y as int, 0xC000_0000_0000, COORD_LIMIT as int);
            lemma_mul_bound(2 * d as int, n.z as int, 0xC000_0000_0000, COORD_LIMIT as int);
        }
        Vec3 { x: v.x - 2 * d * n.x, y: v.y - 2 * d * n.y, z: v.z - 2 * d * n.z }
    }
}

/// Reflection about a normal `n` with `n`·`n` == 1 is the exact mirror map:
/// the normal component of the direction is negated, every direction
/// orthogonal to the normal is kept, and reflecting twice gives the original
/// direction back.
pub proof fn lemma_reflect_mirror(v: Vec3, n: Vec3, r: (int, int, int))
    requires
        Vec3::sdot(n, n) == 1,
        r.0 == v.x - 2 * Vec3::sdot(v, n) * n.x,
        r.1 == v.y - 2 * Vec3::sdot(v, n) * n.y,
        r.2 == v.z - 2 * Vec3::sdot(v, n) * n.z,
    ensures
        r.0 * n.x + r.1 * n.y + r.2 * n.z == -Vec3::sdot(v, n),
        forall|t: Vec3| Vec3::sdot(t, n) == 0 ==> r.0 * t.x + r.1 * t.y + r.2 * t.z
            == Vec3::sdot(v, t),
{
    let s = Vec3::sdot(v, n);
    assert(r.0 * n.x + r.1 * n.y + r.2 * n.z == -s) by (nonlinear_arith)
        requires
            n.x * n.x + n.y * n.y + n.z * n.z == 1,
            s == v.x * n.x + v.y * n.y + v.z * n.z,
            r.0 == v.x - 2 * s * n.x,
            r.1 == v.y - 2 * s * n.y,
            r.2 == v.z - 2 * s * n.z,
    ;
    assert forall|t: Vec3| Vec3::sdot(t, n) == 0 implies r.0 * t.x + r.1 * t.y + r.2 * t.z
        == Vec3::sdot(v, t) by {
        let p = t.x * n.x + t.y * n.y + t.z * n.z;
        assert(p == 0);
        assert(r.0 * t.x == v.x * t.x - 2 * s * (t.x * n.x)) by (nonlinear_arith)
            requires
                r.0 == v.x - 2 * s * n.x,
        ;
        assert(r.1 * t.y == v.y * t.y - 2 * s * (t.y * n.y)) by (nonlinear_arith)
            requires
                r.1 == v.y - 2 * s * n.y,
        ;
        assert(r.2 * t.z == v.z * t.z - 2 * s * (t.z * n.z)) by (nonlinear_arith)
            requires
                r.2 == v.z - 2 * s * n.z,
        ;
        assert(2 * s * (t.x * n.x) + 2 * s * (t.y * n.y) + 2 * s * (t.z * n.z) == 2 * s * p)
            by (nonlinear_arith)
            requires
                p == t.x * n.x + t.y * n.y + t.z * n.z,
        ;
        assert(2 * s * p == 0) by (nonlinear_arith)
            requires
                p == 0,
        ;
    }
}

} // verus!
