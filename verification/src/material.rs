use vstd::prelude::*;
use crate::color::Color;
use crate::hittable::Uv;
use crate::plane::{dot_wide, lemma_sdot_bound};
use crate::rat::{Rat, DENSITY_LIMIT};
use crate::ray::Ray;
use crate::texture::{Solid, Texture};
use crate::vec3::{lemma_mul_bound, Vec3, COORD_LIMIT};

verus! {

/// A material's scatter decision: the attenuation it applies, and whether
/// the bounce is deterministic (specular), with the bounce direction if so.
/// Probabilistically sampled materials leave the direction to their sampling
/// distribution, which draws random numbers and stays with the renderer.
#[derive(Clone, Copy, Debug, PartialEq, Eq, Structural)]
pub struct ScatterRecord {
    pub attenuation: Color,
    pub skip_pdf: bool,
    pub skip_pdf_direction: Vec3,
}

/// The material that interacts with nothing: it never scatters.
#[derive(Clone, Copy, Debug, PartialEq, Eq, Structural)]
pub struct Empty;

impl Empty {
    pub fn scatter(&self) -> (r: Option<ScatterRecord>)
        ensures
            r is None,
    {
        None
    }
}

/// A diffuse surface: the attenuation is the surface texture's color at the
/// hit; the bounce direction is cosine-sampled around the normal, which is
/// irrational and stays with the renderer's sampler.
pub struct Lambertian<T> {
    pub texture: T,
}

impl Lambertian<Solid> {
    pub fn from_color(albedo: &Color) -> (r: Lambertian<Solid>)
        ensures
            r.texture.albedo == *albedo,
    {
        Lambertian { texture: Solid::new(albedo) }
    }
}

impl<T: Texture> Lambertian<T> {
    pub fn from_texture(texture: T) -> (r: Lambertian<T>)
        ensures
            r.texture == texture,
    {
        Lambertian { texture }
    }

    /// The scatter decision: attenuate by the texture's exact color and
    /// sample (no specular skip).
    pub fn scatter(&self, uv: &Uv, point: &Vec3) -> (r: ScatterRecord)
        requires
            self.texture.wf(),
            point.in_bounds(COORD_LIMIT as int),
        ensures
            r.attenuation == self.texture.value_spec(*uv, *point),
            !r.skip_pdf,
            r.skip_pdf_direction.is_zero(),
    {
        ScatterRecord {
            attenuation: self.texture.value(uv, point),
            skip_pdf: false,
            skip_pdf_direction: Vec3 { x: 0, y: 0, z: 0 },
        }
    }
}

/// A scattering medium's phase material: the attenuation is the texture's
/// exact color; the uniform random direction stays with the renderer.
pub struct Isotropic<T> {
    pub texture: T,
}

impl Isotropic<Solid> {
    pub fn from_color(albedo: &Color) -> (r: Isotropic<Solid>)
        ensures
            r.texture.albedo == *albedo,
    {
        Isotropic { texture: Solid::new(albedo) }
    }
}

impl<T: Texture> Isotropic<T> {
    pub fn from_texture(texture: T) -> (r: Isotropic<T>)
        ensures
            r.texture == texture,
    {
        Isotropic { texture }
    }

    pub fn scatter(&self, uv: &Uv, point: &Vec3) -> (r: ScatterRecord)
        requires
            self.texture.wf(),
            point.in_bounds(COORD_LIMIT as int),
        ensures
            r.attenuation == self.texture.value_spec(*uv, *point),
            !r.skip_pdf,
            r.skip_pdf_direction.is_zero(),
    {
        ScatterRecord {
            attenuation: self.texture.value(uv, point),
            skip_pdf: false,
            skip_pdf_direction: Vec3 { x: 0, y: 0, z: 0 },
        }
    }
}

/// A mirror with a fuzz radius in thousandths, capped at full intensity.
#[derive(Clone, Copy, Debug, PartialEq, Eq, Structural)]
pub struct Metal {
    pub albedo: Color,
    pub fuzz: i64,
}

impl Metal {
    pub fn new(albedo: &Color, fuzz: i64) -> (r: Metal)
        ensures
            r.albedo == *albedo,
            r.fuzz == (if fuzz <= 1000 { fuzz } else { 1000 }),
    {
        Metal { albedo: *albedo, fuzz: if fuzz <= 1000 { fuzz } else { 1000 } }
    }

    /// The metallic bounce: deterministic mirror reflection about the normal
    /// plus the fuzz offset the sampler drew (exactly zero for a polished
    /// metal, where the bounce is the exact mirror image).
    pub fn scatter(&self, ray_in: &Ray, normal: &Vec3, fuzz_offset: &Vec3) -> (r: ScatterRecord)
        requires
            ray_in.in_bounds(COORD_LIMIT as int),
            normal.in_bounds(COORD_LIMIT as int),
            fuzz_offset.in_bounds(COORD_LIMIT as int),
        ensures
            r.attenuation == self.albedo,
            r.skip_pdf,
            r.skip_pdf_direction.x == ray_in.dir.x - 2 * Vec3::sdot(ray_in.dir, *normal)
                * normal.x + fuzz_offset.x,
            r.skip_pdf_direction.y == ray_in.dir.y - 2 * Vec3::sdot(ray_in.dir, *normal)
                * normal.y + fuzz_offset.y,
            r.skip_pdf_direction.z == ray_in.dir.z - 2 * Vec3::sdot(ray_in.dir, *normal)
                * normal.z + fuzz_offset.z,
    {
        let reflected: Vec3 = Vec3::reflect(ray_in.direction(), normal);
        proof {
            lemma_sdot_bound(ray_in.dir, *normal, COORD_LIMIT as int, COORD_LIMIT as int);
            lemma_mul_bound(2 * Vec3::sdot(ray_in.dir, *normal), normal.x as int,
                0x1_8000_0000, COORD_LIMIT as int);
            lemma_mul_bound(2 * Vec3::sdot(ray_in.dir, *normal), normal.y as int,
                0x1_8000_0000, COORD_LIMIT as int);
            lemma_mul_bound(2 * Vec3::sdot(ray_in.dir, *normal), normal.z as int,
                0x1_8000_0000, COORD_LIMIT as int);
        }
        let direction: Vec3 = reflected.add(fuzz_offset);
        ScatterRecord { attenuation: self.albedo, skip_pdf: true, skip_pdf_direction: direction }
    }
}

/// A light: it never scatters; it emits its texture's color, but only out of
/// its front face.
pub struct DiffuseLight<T> {
    pub texture: T,
}

impl DiffuseLight<Solid> {
    pub fn from_color(emit: &Color) -> (r: DiffuseLight<Solid>)
        ensures
            r.texture.albedo == *emit,
    {
        DiffuseLight { texture: Solid::new(emit) }
    }
}

impl<T: Texture> DiffuseLight<T> {
    pub fn from_texture(texture: T) -> (r: DiffuseLight<T>)
        ensures
            r.texture == texture,
    {
        DiffuseLight { texture }
    }

    /// The emitted radiance: the texture's exact color when the outward face
    /// was struck, black otherwise.
    pub fn emitted(&self, front_face: bool, uv: &Uv, point: &Vec3) -> (r: Color)
        requires
            self.texture.wf(),
            point.in_bounds(COORD_LIMIT as int),
        ensures
            front_face ==> r == self.texture.value_spec(*uv, *point),
            !front_face ==> r == (Vec3 { x: 0, y: 0, z: 0 }),
    {
        if !front_face {
            return Vec3 { x: 0, y: 0, z: 0 };
        }
        self.texture.value(uv, point)
    }
}

/// Glass, named by its exact rational refractive index. Whether refraction
/// is possible at all is exactly decidable; the refracted direction and
/// Schlick's stochastic reflectance are irrational and stay with the
/// renderer.
#[derive(Clone, Copy, Debug, PartialEq, Eq, Structural)]
pub struct Dielectric {
    pub refractive_index: Rat,
}

/// Total internal reflection: the effective index (inverted when the outward
/// face was struck) times the sine of the incidence angle exceeds one —
/// stated with both sides squared and cleared of denominators, which is
/// exact on the grid.
pub open spec fn spec_must_reflect(ri: Rat, front_face: bool, dir: Vec3, normal: Vec3) -> bool {
    let rn = if front_face { ri.den } else { ri.num };
    let rd = if front_face { ri.num } else { ri.den };
    let dd = Vec3::sdot(dir, dir);
    let nn = Vec3::sdot(normal, normal);
    let dn = Vec3::sdot(dir, normal);
    (rn * rn) * (dd * nn - dn * dn) > (rd * rd) * (dd * nn)
}

impl Dielectric {
    pub fn new(refractive_index: Rat) -> (r: Dielectric)
        ensures
            r.refractive_index == refractive_index,
    {
        Dielectric { refractive_index }
    }

    /// Decide total internal reflection exactly: true exactly when no
    /// refracted direction exists, so the bounce must reflect whatever
    /// reflectance the sampler would have drawn.
    pub fn must_reflect(&self, front_face: bool, dir: &Vec3, normal: &Vec3) -> (r: bool)
        requires
            self.refractive_index.wf(),
            self.refractive_index.num >= 1,
            self.refractive_index.bounded(DENSITY_LIMIT as int),
            dir.in_bounds(COORD_LIMIT as int),
            normal.in_bounds(COORD_LIMIT as int),
        ensures
            r == spec_must_reflect(self.refractive_index, front_face, *dir, *normal),
    {
        proof {
            lemma_sdot_bound(*dir, *dir, COORD_LIMIT as int, COORD_LIMIT as int);
            lemma_sdot_bound(*normal, *normal, COORD_LIMIT as int, COORD_LIMIT as int);
            lemma_sdot_bound(*dir, *normal, COORD_LIMIT as int, COORD_LIMIT as int);
        }
        let rn: i128 = if front_face {
            self.refractive_index.den
        } else {
            self.refractive_index.num
        };
        let rd: i128 = if front_face {
            self.refractive_index.num
        } else {
            self.refractive_index.den
        };
        let dd: i128 = dot_wide(dir, dir);
        let nn: i128 = dot_wide(normal, normal);
        let dn: i128 = dot_wide(dir, normal);
        proof {
            lemma_mul_bound(dd as int, nn as int, 0xC000_0000, 0xC000_0000);
            lemma_mul_bound(dn as int, dn as int, 0xC000_0000, 0xC000_0000);
            lemma_mul_bound(rn as int, rn as int, DENSITY_LIMIT as int, DENSITY_LIMIT as int);
            lemma_mul_bound(rd as int, rd as int, DENSITY_LIMIT as int, DENSITY_LIMIT as int);
        }
        let rn2: i128 = rn * rn;
        let rd2: i128 = rd * rd;
        let ddnn: i128 = dd * nn;
        let sin2_num: i128 = ddnn - dn * dn;
        proof {
            assert(-0x1_0000_0000_0000_0000_0000_0000_0000 <= (rn2 as int) * (sin2_num as int)
                <= 0x1_0000_0000_0000_0000_0000_0000_0000) by (nonlinear_arith)
                requires
                    -0x100_0000_0000 <= rn2 as int <= 0x100_0000_0000,
                    -0x1_2000_0000_0000_0000 <= sin2_num as int <= 0x1_2000_0000_0000_0000,
            ;
            assert(-0x1_0000_0000_0000_0000_0000_0000_0000 <= (rd2 as int) * (ddnn as int)
                <= 0x1_0000_0000_0000_0000_0000_0000_0000) by (nonlinear_arith)
                requires
                    -0x100_0000_0000 <= rd2 as int <= 0x100_0000_0000,
                    -0x9000_0000_0000_0000 <= ddnn as int <= 0x9000_0000_0000_0000,
            ;
        }
        rn2 * sin2_num > rd2 * ddnn
    }
}

} // verus!
