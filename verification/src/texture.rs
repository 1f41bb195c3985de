use vstd::prelude::*;
use vstd::arithmetic::div_mod::{lemma_hoist_over_denominator, lemma_mod_multiples_vanish};
use crate::color::Color;
use crate::hittable::Uv;
use crate::vec3::{lemma_mul_bound, Vec3, COORD_LIMIT};

verus! {

/// A source of surface color: a color for every surface coordinate and
/// world point on the grid.
pub trait Texture {
    spec fn wf(&self) -> bool;

    spec fn value_spec(&self, uv: Uv, point: Vec3) -> Color;

    fn value(&self, uv: &Uv, point: &Vec3) -> (r: Color)
        requires
            self.wf(),
            point.in_bounds(COORD_LIMIT as int),
        ensures
            r == self.value_spec(*uv, *point),
    ;
}

/// A solid color, the same at every surface coordinate and point.
#[derive(Clone, Copy, Debug, PartialEq, Eq, Structural)]
pub struct Solid {
    pub albedo: Color,
}

impl Solid {
    pub fn new(albedo: &Color) -> (r: Solid)
        ensures
            r.albedo == *albedo,
    {
        Solid { albedo: *albedo }
    }

    pub fn from_rgb(r: i64, g: i64, b: i64) -> (t: Solid)
        ensures
            t.albedo == (Vec3 { x: r, y: g, z: b }),
    {
        Solid::new(&Vec3 { x: r, y: g, z: b })
    }
}

impl Texture for Solid {
    open spec fn wf(&self) -> bool {
        true
    }

    open spec fn value_spec(&self, uv: Uv, point: Vec3) -> Color {
        self.albedo
    }

    fn value(&self, _uv: &Uv, _point: &Vec3) -> (r: Color) {
        self.albedo
    }
}

/// The index of the grid cell of size `s` that `x` falls in: the quotient
/// rounded toward minus infinity.
fn floor_div(x: i64, s: i64) -> (r: i64)
    requires
        1 <= s <= COORD_LIMIT,
        -COORD_LIMIT <= x <= COORD_LIMIT,
    ensures
        r == (x as int) / (s as int),
        -COORD_LIMIT <= r <= COORD_LIMIT,
{
    proof {
        assert(-COORD_LIMIT <= (x as int) / (s as int) <= COORD_LIMIT) by (nonlinear_arith)
            requires
                1 <= s,
                -COORD_LIMIT <= x <= COORD_LIMIT,
        ;
    }
    proof {
        lemma_mul_bound(s as int, 2 * COORD_LIMIT as int, COORD_LIMIT as int,
            2 * COORD_LIMIT as int);
        lemma_hoist_over_denominator(x as int, 2 * COORD_LIMIT as int, s as nat);
        assert(s * (2 * COORD_LIMIT) >= 2 * COORD_LIMIT) by (nonlinear_arith)
            requires
                s >= 1,
        ;
        assert((2 * COORD_LIMIT) * (s as int) == s * (2 * COORD_LIMIT)) by (nonlinear_arith);
    }
    let shifted: i64 = x + s * (2 * COORD_LIMIT);
    let q: i64 = shifted / s;
    proof {
        assert(0 <= shifted);
        assert(q == (x as int) / (s as int) + 2 * COORD_LIMIT);
    }
    q - 2 * COORD_LIMIT
}

/// A checkerboard over the world grid: cells of the given size alternate
/// between the two child textures by the parity of their cell indices.
#[derive(Clone, Copy, Debug, PartialEq, Eq, Structural)]
pub struct Checker<E, O> {
    pub scale: i64,
    pub even: E,
    pub odd: O,
}

impl<E: Texture, O: Texture> Checker<E, O> {
    pub fn new(scale: i64, even: E, odd: O) -> (r: Checker<E, O>)
        ensures
            r.scale == scale,
            r.even == even,
            r.odd == odd,
    {
        Checker { scale, even, odd }
    }
}

impl Checker<Solid, Solid> {
    pub fn from_color(scale: i64, color1: &Color, color2: &Color) -> (r: Checker<Solid, Solid>)
        ensures
            r.scale == scale,
            r.even.albedo == *color1,
            r.odd.albedo == *color2,
    {
        Checker::new(scale, Solid::new(color1), Solid::new(color2))
    }
}

impl<E: Texture, O: Texture> Texture for Checker<E, O> {
    open spec fn wf(&self) -> bool {
        &&& 1 <= self.scale <= COORD_LIMIT
        &&& self.even.wf()
        &&& self.odd.wf()
    }

    /// The cell-index parity of the point picks the child texture.
    open spec fn value_spec(&self, uv: Uv, point: Vec3) -> Color {
        let fsum = point.x / self.scale + point.y / self.scale + point.z / self.scale;
        if fsum % 2 == 0 {
            self.even.value_spec(uv, point)
        } else {
            self.odd.value_spec(uv, point)
        }
    }

    fn value(&self, uv: &Uv, point: &Vec3) -> (r: Color) {
        let fx: i64 = floor_div(point.x, self.scale);
        let fy: i64 = floor_div(point.y, self.scale);
        let fz: i64 = floor_div(point.z, self.scale);
        let shifted_sum: i64 = (fx + 2 * COORD_LIMIT) + (fy + 2 * COORD_LIMIT) + (fz + 2
            * COORD_LIMIT);
        proof {
            lemma_mod_multiples_vanish(3 * COORD_LIMIT as int,
                point.x / self.scale + point.y / self.scale + point.z / self.scale, 2);
        }
        if shifted_sum % 2 == 0 {
            self.even.value(uv, point)
        } else {
            self.odd.value(uv, point)
        }
    }
}

} // verus!
