use vstd::prelude::*;
use crate::rat::{Rat, RAT_LIMIT};
use crate::vec3::{lemma_mul_bound, Vec3};

verus! {

/// The probability-density capability that contributes nothing: its density
/// is zero in every direction. It stands in for materials that never sample.
#[derive(Clone, Copy, Debug, PartialEq, Eq, Structural)]
pub struct EmptyPDF;

impl EmptyPDF {
    /// The density this distribution reports for any direction.
    pub fn value(&self, _direction: &Vec3) -> (r: Rat)
        ensures
            r.num == 0,
            r.den == 1,
            r.wf(),
    {
        Rat { num: 0, den: 1 }
    }
}

/// The exact combination rule of a half-and-half mixture of two densities:
/// the result is the exact arithmetic mean of the two, whichever values they
/// have — including a zero density on either side.
pub fn mixture_value(a: &Rat, b: &Rat) -> (r: Rat)
    requires
        a.wf(),
        b.wf(),
        a.bounded(RAT_LIMIT as int),
        b.bounded(RAT_LIMIT as int),
    ensures
        r.wf(),
        r.num == a.num * b.den + b.num * a.den,
        r.den == 2 * (a.den * b.den),
{
    proof {
        lemma_mul_bound(a.num as int, b.den as int, RAT_LIMIT as int, RAT_LIMIT as int);
        lemma_mul_bound(b.num as int, a.den as int, RAT_LIMIT as int, RAT_LIMIT as int);
        lemma_mul_bound(a.den as int, b.den as int, RAT_LIMIT as int, RAT_LIMIT as int);
        assert(a.den * b.den >= 1) by (nonlinear_arith)
            requires
                a.den >= 1,
                b.den >= 1,
        ;
    }
    Rat { num: a.num * b.den + b.num * a.den, den: 2 * (a.den * b.den) }
}

/// The mean returned by `mixture_value` is the exact average: doubled and
/// brought over the common denominator it equals the sum of the two
/// densities, for every pair of densities.
pub proof fn lemma_mixture_value_is_average(a: Rat, b: Rat, r: Rat)
    requires
        a.wf(),
        b.wf(),
        r.num == a.num * b.den + b.num * a.den,
        r.den == 2 * (a.den * b.den),
    ensures
        r.wf(),
        2 * (r.num * (a.den * b.den)) == (a.num * b.den + b.num * a.den) * r.den,
{
    assert(a.den * b.den >= 1) by (nonlinear_arith)
        requires
            a.den >= 1,
            b.den >= 1,
    ;
    assert(2 * (r.num * (a.den * b.den)) == (a.num * b.den + b.num * a.den) * r.den)
        by (nonlinear_arith)
        requires
            r.num == a.num * b.den + b.num * a.den,
            r.den == 2 * (a.den * b.den),
    ;
}

/// The half-and-half mixture of two reported densities for one direction.
/// Its density is their exact average; which side a sampler would follow is
/// a coin flip and stays with the renderer.
#[derive(Clone, Copy, Debug, PartialEq, Eq, Structural)]
pub struct MixturePDF {
    pub light_pdf: Rat,
    pub surface_pdf: Rat,
}

impl MixturePDF {
    pub fn new(light_pdf: Rat, surface_pdf: Rat) -> (r: MixturePDF)
        ensures
            r.light_pdf == light_pdf,
            r.surface_pdf == surface_pdf,
    {
        MixturePDF { light_pdf, surface_pdf }
    }

    /// The blended density: the exact average of both children's densities.
    pub fn value(&self) -> (r: Rat)
        requires
            self.light_pdf.wf(),
            self.surface_pdf.wf(),
            self.light_pdf.bounded(RAT_LIMIT as int),
            self.surface_pdf.bounded(RAT_LIMIT as int),
        ensures
            r.wf(),
            r.num == self.light_pdf.num * self.surface_pdf.den + self.surface_pdf.num
                * self.light_pdf.den,
            r.den == 2 * (self.light_pdf.den * self.surface_pdf.den),
            2 * (r.num * (self.light_pdf.den * self.surface_pdf.den)) == (self.light_pdf.num
                * self.surface_pdf.den + self.surface_pdf.num * self.light_pdf.den) * r.den,
    {
        let r = mixture_value(&self.light_pdf, &self.surface_pdf);
        proof {
            lemma_mixture_value_is_average(self.light_pdf, self.surface_pdf, r);
        }
        r
    }
}

} // verus!
