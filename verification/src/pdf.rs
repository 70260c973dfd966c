//! The distributions from which directions are drawn.
use vstd::prelude::*;
use crate::onb::ONB;
use crate::rng::coin;
use crate::vec3::{above, spec_above, Scalar, Vec3, ZERO};

verus! {

/// Directions drawn with a density proportional to their cosine to an axis.
#[derive(Debug, Clone, Copy, PartialEq, Eq)]
pub struct CosinePDF {
    pub uvw: ONB,
}

impl CosinePDF {
    /// The density of a direction whose cosine to the axis is `cosine`:
    /// `density`, which is that cosine over pi, where the cosine is
    /// positive, and zero everywhere else.
    pub open spec fn spec_value(cosine: Option<Scalar>, density: Scalar) -> Scalar {
        if spec_above(cosine, ZERO) {
            density
        } else {
            ZERO
        }
    }

    /// The distribution about the third vector of `uvw`.
    pub fn new(uvw: ONB) -> (p: Self)
        ensures
            p.uvw == uvw,
    {
        Self { uvw }
    }

    /// The density of a direction; zero for every direction whose cosine to
    /// the axis is not positive.
    pub fn value(&self, cosine: Option<Scalar>, density: Scalar) -> (d: Scalar)
        ensures
            d == Self::spec_value(cosine, density),
            !spec_above(cosine, ZERO) ==> d == ZERO,
    {
        if above(cosine, ZERO) {
            density
        } else {
            ZERO
        }
    }
}

/// Directions drawn towards a primitive, as seen from the point `o`.
#[derive(Debug)]
pub struct HitablePDF<T> {
    pub o: Vec3,
    pub hitable: T,
}

impl<T> HitablePDF<T> {
    /// The distribution of the directions from `o` towards `hitable`.
    pub fn new(hitable: T, o: Vec3) -> (p: Self)
        ensures
            p.o == o,
            p.hitable == hitable,
    {
        Self { o, hitable }
    }
}

/// An even blend of two distributions.
#[derive(Debug)]
pub struct MixturePDF<A, B> {
    pub hitable_pdf: A,
    pub cosine_pdf: B,
}

impl<A, B> MixturePDF<A, B> {
    /// The even blend of the two distributions.
    pub fn new(hitable_pdf: A, cosine_pdf: B) -> (p: Self)
        ensures
            p.hitable_pdf == hitable_pdf,
            p.cosine_pdf == cosine_pdf,
    {
        Self { hitable_pdf, cosine_pdf }
    }

    /// A direction from the first distribution on heads and from the
    /// second on tails. Only the distribution chosen is sampled.
    pub fn pick<F: FnOnce(&A) -> Vec3, G: FnOnce(&B) -> Vec3>(
        &self,
        heads: bool,
        from_hitable: F,
        from_cosine: G,
    ) -> (d: Vec3)
        requires
            call_requires(from_hitable, (&self.hitable_pdf,)),
            call_requires(from_cosine, (&self.cosine_pdf,)),
        ensures
            heads ==> call_ensures(from_hitable, (&self.hitable_pdf,), d),
            !heads ==> call_ensures(from_cosine, (&self.cosine_pdf,), d),
    {
        if heads {
            from_hitable(&self.hitable_pdf)
        } else {
            from_cosine(&self.cosine_pdf)
        }
    }

    /// A direction from one of the two distributions, chosen by the flip of
    /// a fair coin.
    pub fn generate<F: FnOnce(&A) -> Vec3, G: FnOnce(&B) -> Vec3>(
        &self,
        from_hitable: F,
        from_cosine: G,
    ) -> (d: Vec3)
        requires
            call_requires(from_hitable, (&self.hitable_pdf,)),
            call_requires(from_cosine, (&self.cosine_pdf,)),
        ensures
            call_ensures(from_hitable, (&self.hitable_pdf,), d) || call_ensures(
                from_cosine,
                (&self.cosine_pdf,),
                d,
            ),
    {
        self.pick(coin(), from_hitable, from_cosine)
    }
}

} // verus!
