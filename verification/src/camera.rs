use vstd::prelude::*;
use crate::rat::{Rat, DENSITY_LIMIT};
use crate::vec3::lemma_mul_bound;

verus! {

/// A color with exact rational channels, for the estimator's combination
/// arithmetic.
#[derive(Clone, Copy, Debug, PartialEq, Eq, Structural)]
pub struct RatColor {
    pub r: Rat,
    pub g: Rat,
    pub b: Rat,
}

impl RatColor {
    pub open spec fn wf(self) -> bool {
        &&& self.r.wf()
        &&& self.g.wf()
        &&& self.b.wf()
    }

    pub open spec fn bounded(self, bound: int) -> bool {
        &&& self.r.bounded(bound)
        &&& self.g.bounded(bound)
        &&& self.b.bounded(bound)
    }
}

/// What one bounce of the radiance estimator does next, decided from plain
/// facts: the recursion budget, whether the scene was hit, whether the
/// material scatters, and whether the bounce is a deterministic (specular)
/// one.
#[derive(Clone, Copy, Debug, PartialEq, Eq, Structural)]
pub enum RadianceStep {
    Cutoff,
    Background,
    EmissionOnly,
    SpecularBounce,
    SampledBounce,
}

/// The estimator's per-bounce decision: an exhausted depth budget returns
/// black before anything else; a miss returns the background; a material
/// that declines to scatter contributes its emission alone; a specular
/// record recurses along its deterministic ray; everything else samples the
/// mixture and combines.
pub fn radiance_step(depth: u32, hit: bool, scattered: bool, skip_pdf: bool) -> (r: RadianceStep)
    ensures
        r == (if depth == 0 {
            RadianceStep::Cutoff
        } else if !hit {
            RadianceStep::Background
        } else if !scattered {
            RadianceStep::EmissionOnly
        } else if skip_pdf {
            RadianceStep::SpecularBounce
        } else {
            RadianceStep::SampledBounce
        }),
{
    if depth == 0 {
        RadianceStep::Cutoff
    } else if !hit {
        RadianceStep::Background
    } else if !scattered {
        RadianceStep::EmissionOnly
    } else if skip_pdf {
        RadianceStep::SpecularBounce
    } else {
        RadianceStep::SampledBounce
    }
}

/// One channel of the sampled-bounce combination:
/// emission + attenuation * scattering_pdf * incoming / mixture_pdf,
/// as an exact rational (the mixture density must be positive here).
pub open spec fn spec_combine_channel(em: Rat, att: Rat, spdf: Rat, inc: Rat, mpdf: Rat) -> Rat {
    let tn = att.num * (spdf.num * (inc.num * mpdf.den));
    let td = att.den * (spdf.den * (inc.den * mpdf.num));
    Rat { num: (em.num * td + tn * em.den) as i128, den: (em.den * td) as i128 }
}

/// One channel of the specular combination: emission + attenuation * incoming.
pub open spec fn spec_specular_channel(em: Rat, att: Rat, inc: Rat) -> Rat {
    let tn = att.num * inc.num;
    let td = att.den * inc.den;
    Rat { num: (em.num * td + tn * em.den) as i128, den: (em.den * td) as i128 }
}

/// Compute one channel of the sampled-bounce combination exactly.
fn combine_channel(em: &Rat, att: &Rat, spdf: &Rat, inc: &Rat, mpdf: &Rat) -> (r: Rat)
    requires
        em.wf(),
        att.wf(),
        spdf.wf(),
        inc.wf(),
        mpdf.wf(),
        mpdf.num >= 1,
        em.bounded(DENSITY_LIMIT as int),
        att.bounded(DENSITY_LIMIT as int),
        spdf.bounded(DENSITY_LIMIT as int),
        inc.bounded(DENSITY_LIMIT as int),
        mpdf.bounded(DENSITY_LIMIT as int),
    ensures
        r == spec_combine_channel(*em, *att, *spdf, *inc, *mpdf),
        r.wf(),
{
    proof {
        lemma_mul_bound(inc.num as int, mpdf.den as int, DENSITY_LIMIT as int,
            DENSITY_LIMIT as int);
        lemma_mul_bound(spdf.num as int, inc.num * mpdf.den, DENSITY_LIMIT as int,
            0x100_0000_0000);
        lemma_mul_bound(att.num as int, spdf.num * (inc.num * mpdf.den), DENSITY_LIMIT as int,
            0x1000_0000_0000_0000);
        lemma_mul_bound(inc.den as int, mpdf.num as int, DENSITY_LIMIT as int,
            DENSITY_LIMIT as int);
        lemma_mul_bound(spdf.den as int, inc.den * mpdf.num, DENSITY_LIMIT as int,
            0x100_0000_0000);
        lemma_mul_bound(att.den as int, spdf.den * (inc.den * mpdf.num), DENSITY_LIMIT as int,
            0x1000_0000_0000_0000);
        lemma_mul_bound(em.num as int, att.den * (spdf.den * (inc.den * mpdf.num)),
            DENSITY_LIMIT as int, 0x10_0000_0000_0000_0000_0000);
        lemma_mul_bound(att.num * (spdf.num * (inc.num * mpdf.den)), em.den as int,
            0x10_0000_0000_0000_0000_0000, DENSITY_LIMIT as int);
        lemma_mul_bound(em.den as int, att.den * (spdf.den * (inc.den * mpdf.num)),
            DENSITY_LIMIT as int, 0x10_0000_0000_0000_0000_0000);
        assert(inc.den * mpdf.num >= 1) by (nonlinear_arith)
            requires
                inc.den >= 1,
                mpdf.num >= 1,
        ;
        assert(spdf.den * (inc.den * mpdf.num) >= 1) by (nonlinear_arith)
            requires
                spdf.den >= 1,
                inc.den * mpdf.num >= 1,
        ;
        assert(att.den * (spdf.den * (inc.den * mpdf.num)) >= 1) by (nonlinear_arith)
            requires
                att.den >= 1,
                spdf.den * (inc.den * mpdf.num) >= 1,
        ;
        assert(em.den * (att.den * (spdf.den * (inc.den * mpdf.num))) >= 1) by (nonlinear_arith)
            requires
                em.den >= 1,
                att.den * (spdf.den * (inc.den * mpdf.num)) >= 1,
        ;
    }
    let tn: i128 = att.num * (spdf.num * (inc.num * mpdf.den));
    let td: i128 = att.den * (spdf.den * (inc.den * mpdf.num));
    Rat { num: em.num * td + tn * em.den, den: em.den * td }
}

/// The sampled-bounce combination of the estimator, channel by channel:
/// emission plus attenuation scaled by the ratio of the material's own
/// scattering density to the mixture's density, applied to the incoming
/// radiance — all as exact rationals. A nonpositive mixture density means no
/// valid contribution: the emission is returned unchanged rather than
/// dividing by it.
pub fn radiance_combine(
    emission: &RatColor,
    attenuation: &RatColor,
    scattering_pdf: &Rat,
    mixture_pdf: &Rat,
    incoming: &RatColor,
) -> (r: RatColor)
    requires
        emission.wf(),
        attenuation.wf(),
        scattering_pdf.wf(),
        mixture_pdf.wf(),
        incoming.wf(),
        emission.bounded(DENSITY_LIMIT as int),
        attenuation.bounded(DENSITY_LIMIT as int),
        scattering_pdf.bounded(DENSITY_LIMIT as int),
        mixture_pdf.bounded(DENSITY_LIMIT as int),
        incoming.bounded(DENSITY_LIMIT as int),
    ensures
        r.wf(),
        mixture_pdf.num <= 0 ==> r == *emission,
        mixture_pdf.num > 0 ==> {
            &&& r.r == spec_combine_channel(emission.r, attenuation.r, *scattering_pdf,
                incoming.r, *mixture_pdf)
            &&& r.g == spec_combine_channel(emission.g, attenuation.g, *scattering_pdf,
                incoming.g, *mixture_pdf)
            &&& r.b == spec_combine_channel(emission.b, attenuation.b, *scattering_pdf,
                incoming.b, *mixture_pdf)
        },
{
    if mixture_pdf.num <= 0 {
        *emission
    } else {
        RatColor {
            r: combine_channel(&emission.r, &attenuation.r, scattering_pdf, &incoming.r,
                mixture_pdf),
            g: combine_channel(&emission.g, &attenuation.g, scattering_pdf, &incoming.g,
                mixture_pdf),
            b: combine_channel(&emission.b, &attenuation.b, scattering_pdf, &incoming.b,
                mixture_pdf),
        }
    }
}

/// The combined channel equals, as an exact rational, the emission plus the
/// weighted term over their common denominator: cross-multiplied, the
/// channel times that denominator is the emission scaled by the term's
/// denominator plus the term's numerator scaled by the emission's.
pub proof fn lemma_combine_channel_exact(em: Rat, att: Rat, spdf: Rat, inc: Rat, mpdf: Rat, r: Rat)
    requires
        em.wf(),
        att.wf(),
        spdf.wf(),
        inc.wf(),
        mpdf.wf(),
        mpdf.num >= 1,
        em.bounded(DENSITY_LIMIT as int),
        att.bounded(DENSITY_LIMIT as int),
        spdf.bounded(DENSITY_LIMIT as int),
        inc.bounded(DENSITY_LIMIT as int),
        mpdf.bounded(DENSITY_LIMIT as int),
        r == spec_combine_channel(em, att, spdf, inc, mpdf),
    ensures
        r.wf(),
        r.num * (em.den * (att.den * (spdf.den * (inc.den * mpdf.num)))) == (em.num * (att.den * (
        spdf.den * (inc.den * mpdf.num))) + (att.num * (spdf.num * (inc.num * mpdf.den)))
            * em.den) * r.den,
{
    lemma_mul_bound(inc.num as int, mpdf.den as int, DENSITY_LIMIT as int, DENSITY_LIMIT as int);
    lemma_mul_bound(spdf.num as int, inc.num * mpdf.den, DENSITY_LIMIT as int, 0x100_0000_0000);
    lemma_mul_bound(att.num as int, spdf.num * (inc.num * mpdf.den), DENSITY_LIMIT as int,
        0x1000_0000_0000_0000);
    lemma_mul_bound(inc.den as int, mpdf.num as int, DENSITY_LIMIT as int, DENSITY_LIMIT as int);
    lemma_mul_bound(spdf.den as int, inc.den * mpdf.num, DENSITY_LIMIT as int, 0x100_0000_0000);
    lemma_mul_bound(att.den as int, spdf.den * (inc.den * mpdf.num), DENSITY_LIMIT as int,
        0x1000_0000_0000_0000);
    lemma_mul_bound(em.num as int, att.den * (spdf.den * (inc.den * mpdf.num)),
        DENSITY_LIMIT as int, 0x10_0000_0000_0000_0000_0000);
    lemma_mul_bound(att.num * (spdf.num * (inc.num * mpdf.den)), em.den as int,
        0x10_0000_0000_0000_0000_0000, DENSITY_LIMIT as int);
    lemma_mul_bound(em.den as int, att.den * (spdf.den * (inc.den * mpdf.num)),
        DENSITY_LIMIT as int, 0x10_0000_0000_0000_0000_0000);
    assert(em.den * (att.den * (spdf.den * (inc.den * mpdf.num))) >= 1) by (nonlinear_arith)
        requires
            em.den >= 1,
            att.den >= 1,
            spdf.den >= 1,
            inc.den >= 1,
            mpdf.num >= 1,
    ;
}

/// The specular combination of the estimator, channel by channel:
/// emission plus attenuation applied to the radiance brought back along the
/// deterministic bounce ray, as exact rationals.
pub fn specular_combine(emission: &RatColor, attenuation: &RatColor, incoming: &RatColor) -> (r:
    RatColor)
    requires
        emission.wf(),
        attenuation.wf(),
        incoming.wf(),
        emission.bounded(DENSITY_LIMIT as int),
        attenuation.bounded(DENSITY_LIMIT as int),
        incoming.bounded(DENSITY_LIMIT as int),
    ensures
        r.wf(),
        r.r == spec_specular_channel(emission.r, attenuation.r, incoming.r),
        r.g == spec_specular_channel(emission.g, attenuation.g, incoming.g),
        r.b == spec_specular_channel(emission.b, attenuation.b, incoming.b),
{
    let r_ch: Rat = specular_channel(&emission.r, &attenuation.r, &incoming.r);
    let g_ch: Rat = specular_channel(&emission.g, &attenuation.g, &incoming.g);
    let b_ch: Rat = specular_channel(&emission.b, &attenuation.b, &incoming.b);
    RatColor { r: r_ch, g: g_ch, b: b_ch }
}

/// Compute one channel of the specular combination exactly.
fn specular_channel(em: &Rat, att: &Rat, inc: &Rat) -> (r: Rat)
    requires
        em.wf(),
        att.wf(),
        inc.wf(),
        em.bounded(DENSITY_LIMIT as int),
        att.bounded(DENSITY_LIMIT as int),
        inc.bounded(DENSITY_LIMIT as int),
    ensures
        r == spec_specular_channel(*em, *att, *inc),
        r.wf(),
{
    proof {
        lemma_mul_bound(att.num as int, inc.num as int, DENSITY_LIMIT as int,
            DENSITY_LIMIT as int);
        lemma_mul_bound(att.den as int, inc.den as int, DENSITY_LIMIT as int,
            DENSITY_LIMIT as int);
        lemma_mul_bound(em.num as int, att.den * inc.den, DENSITY_LIMIT as int, 0x100_0000_0000);
        lemma_mul_bound(att.num * inc.num, em.den as int, 0x100_0000_0000, DENSITY_LIMIT as int);
        lemma_mul_bound(em.den as int, att.den * inc.den, DENSITY_LIMIT as int, 0x100_0000_0000);
        assert(att.den * inc.den >= 1) by (nonlinear_arith)
            requires
                att.den >= 1,
                inc.den >= 1,
        ;
        assert(em.den * (att.den * inc.den) >= 1) by (nonlinear_arith)
            requires
                em.den >= 1,
                att.den * inc.den >= 1,
        ;
    }
    let tn: i128 = att.num * inc.num;
    let td: i128 = att.den * inc.den;
    Rat { num: em.num * td + tn * em.den, den: em.den * td }
}

} // verus!
