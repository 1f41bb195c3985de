use raytracer::camera::{radiance_combine, radiance_step, specular_combine, RadianceStep, RatColor};
use raytracer::color::write_color;
use raytracer::material::{Dielectric, DiffuseLight, Lambertian, Metal};
use raytracer::ray::Ray;
use raytracer::onb::{BasisAxis, ONB};
use raytracer::pdf::{mixture_value, EmptyPDF, MixturePDF};
use raytracer::rat::Rat;
use raytracer::texture::{Checker, Solid, Texture};
use raytracer::hittable::Uv;
use raytracer::vec3::Vec3;

#[test]
fn color_quantization_extremes() {
    // exact gamma-space zero and full intensity map to bytes 0 and 255
    assert_eq!(write_color(&Vec3::new(0, 0, 0)), (0, 0, 0));
    assert_eq!(write_color(&Vec3::new(1000, 1000, 1000)), (255, 255, 255));
    // a negative channel floors at zero, an overshooting one saturates
    assert_eq!(write_color(&Vec3::new(-500, 2000, 500)), (0, 255, 128));
}

#[test]
fn color_quantization_midpoints() {
    assert_eq!(write_color(&Vec3::new(250, 500, 750)), (64, 128, 192));
}

#[test]
fn mixture_is_exact_average() {
    // one half and one quarter average to three eighths
    let a = Rat { num: 1, den: 2 };
    let b = Rat { num: 1, den: 4 };
    let r = mixture_value(&a, &b);
    assert_eq!(r.num * 8, 3 * r.den);
}

#[test]
fn mixture_with_zero_density_child() {
    // a zero-density child halves the other child's density exactly
    let zero = EmptyPDF.value(&Vec3::new(1, 0, 0));
    let b = Rat { num: 1, den: 2 };
    let m = MixturePDF::new(zero, b);
    let r = m.value();
    assert_eq!(r.num * 4, r.den);
}

#[test]
fn onb_is_orthogonal() {
    let n = Vec3::new(3, -5, 2);
    let frame = ONB::new(&n);
    assert_eq!(Vec3::dot(&frame.u, &frame.v), 0);
    assert_eq!(Vec3::dot(&frame.u, &frame.w), 0);
    assert_eq!(Vec3::dot(&frame.v, &frame.w), 0);
    assert_eq!(frame.component(BasisAxis::W), &n);
    let axes = BasisAxis::iterator();
    assert_eq!(axes.len(), 3);
}

#[test]
fn onb_transform_is_linear_combination() {
    let frame = ONB::new(&Vec3::new(0, 0, 1));
    // the canonical frame around +z: transform maps basis coordinates back
    let world = frame.transform(&Vec3::new(2, 3, 4));
    let by_hand = frame.u.mul(2).add(&frame.v.mul(3)).add(&frame.w.mul(4));
    assert_eq!(world, by_hand);
}

#[test]
fn solid_texture_is_constant() {
    let tex = Solid::from_rgb(100, 200, 300);
    let uv = Uv { u: Rat::from_int(0), v: Rat::from_int(0) };
    assert_eq!(tex.value(&uv, &Vec3::new(5, 5, 5)), Vec3::new(100, 200, 300));
    assert_eq!(tex.value(&uv, &Vec3::new(-5, 0, 9)), Vec3::new(100, 200, 300));
}

#[test]
fn checker_alternates_cells() {
    let even = Vec3::new(1000, 1000, 1000);
    let odd = Vec3::new(0, 0, 0);
    let tex = Checker::from_color(10, &even, &odd);
    let uv = Uv { u: Rat::from_int(0), v: Rat::from_int(0) };
    // cell indices (0,0,0): even
    assert_eq!(tex.value(&uv, &Vec3::new(5, 5, 5)), even);
    // one step along x: odd
    assert_eq!(tex.value(&uv, &Vec3::new(15, 5, 5)), odd);
    // a negative coordinate floors toward minus infinity: cell -1 is odd
    assert_eq!(tex.value(&uv, &Vec3::new(-5, 5, 5)), odd);
    // two negative steps cancel: even again
    assert_eq!(tex.value(&uv, &Vec3::new(-5, -5, 5)), even);
}

#[test]
fn radiance_decision_order() {
    assert!(matches!(radiance_step(0, true, true, true), RadianceStep::Cutoff));
    assert!(matches!(radiance_step(3, false, false, false), RadianceStep::Background));
    assert!(matches!(radiance_step(3, true, false, false), RadianceStep::EmissionOnly));
    assert!(matches!(radiance_step(3, true, true, true), RadianceStep::SpecularBounce));
    assert!(matches!(radiance_step(3, true, true, false), RadianceStep::SampledBounce));
}

#[test]
fn radiance_combine_exact_ratio() {
    // emission 0, attenuation 1/2, scattering density 1/3, incoming 1,
    // mixture density 1/6: the combination is exactly one
    let zero = RatColor { r: Rat { num: 0, den: 1 }, g: Rat { num: 0, den: 1 }, b: Rat { num: 0, den: 1 } };
    let att = RatColor { r: Rat { num: 1, den: 2 }, g: Rat { num: 1, den: 2 }, b: Rat { num: 1, den: 2 } };
    let one = RatColor { r: Rat { num: 1, den: 1 }, g: Rat { num: 1, den: 1 }, b: Rat { num: 1, den: 1 } };
    let spdf = Rat { num: 1, den: 3 };
    let mpdf = Rat { num: 1, den: 6 };
    let out = radiance_combine(&zero, &att, &spdf, &mpdf, &one);
    assert_eq!(out.r.num, out.r.den);
    assert_eq!(out.g.num, out.g.den);
    assert_eq!(out.b.num, out.b.den);
}

#[test]
fn radiance_combine_guards_zero_density() {
    let em = RatColor { r: Rat { num: 3, den: 4 }, g: Rat { num: 1, den: 2 }, b: Rat { num: 0, den: 1 } };
    let att = RatColor { r: Rat { num: 1, den: 1 }, g: Rat { num: 1, den: 1 }, b: Rat { num: 1, den: 1 } };
    let zero_density = Rat { num: 0, den: 1 };
    let spdf = Rat { num: 1, den: 3 };
    let out = radiance_combine(&em, &att, &spdf, &zero_density, &att);
    assert_eq!(out, em);
}

#[test]
fn specular_combine_adds_emission() {
    let em = RatColor { r: Rat { num: 1, den: 4 }, g: Rat { num: 0, den: 1 }, b: Rat { num: 0, den: 1 } };
    let att = RatColor { r: Rat { num: 1, den: 2 }, g: Rat { num: 1, den: 2 }, b: Rat { num: 1, den: 2 } };
    let inc = RatColor { r: Rat { num: 1, den: 1 }, g: Rat { num: 1, den: 1 }, b: Rat { num: 1, den: 1 } };
    let out = specular_combine(&em, &att, &inc);
    // 1/4 + 1/2 = 3/4 on the first channel, 1/2 on the others
    assert_eq!(out.r.num * 4, 3 * out.r.den);
    assert_eq!(out.g.num * 2, out.g.den);
    assert_eq!(out.b.num * 2, out.b.den);
}

#[test]
fn diffuse_light_emits_from_front_face_only() {
    let lamp = DiffuseLight::from_color(&Vec3::new(4000, 4000, 4000));
    let uv = Uv { u: Rat::from_int(0), v: Rat::from_int(0) };
    let p = Vec3::new(1, 2, 3);
    assert_eq!(lamp.emitted(true, &uv, &p), Vec3::new(4000, 4000, 4000));
    assert_eq!(lamp.emitted(false, &uv, &p), Vec3::new(0, 0, 0));
}

#[test]
fn metal_zero_fuzz_is_exact_mirror() {
    let metal = Metal::new(&Vec3::new(800, 600, 200), 0);
    assert_eq!(metal.fuzz, 0);
    let ray = Ray::new(&Vec3::new(0, 0, 0), &Vec3::new(1, 2, -3));
    let rec = metal.scatter(&ray, &Vec3::new(0, 0, 1), &Vec3::new(0, 0, 0));
    assert!(rec.skip_pdf);
    assert_eq!(rec.attenuation, Vec3::new(800, 600, 200));
    assert_eq!(rec.skip_pdf_direction, Vec3::new(1, 2, 3));
}

#[test]
fn lambertian_attenuates_by_texture() {
    let mat = Lambertian::from_color(&Vec3::new(100, 200, 500));
    let uv = Uv { u: Rat::from_int(0), v: Rat::from_int(0) };
    let rec = mat.scatter(&uv, &Vec3::new(0, 0, 0));
    assert!(!rec.skip_pdf);
    assert_eq!(rec.attenuation, Vec3::new(100, 200, 500));
}

#[test]
fn dielectric_total_internal_reflection() {
    let glass = Dielectric::new(Rat { num: 3, den: 2 });
    // leaving the glass at a grazing angle: no refracted direction exists
    let steep = Vec3::new(4, -3, 0);
    let normal = Vec3::new(0, 1, 0);
    assert!(glass.must_reflect(false, &steep, &normal));
    // a shallower exit angle refracts
    let shallow = Vec3::new(3, -4, 0);
    assert!(!glass.must_reflect(false, &shallow, &normal));
    // entering the glass never needs total reflection
    assert!(!glass.must_reflect(true, &steep, &normal));
}
