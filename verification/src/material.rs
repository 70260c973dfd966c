//! Materials: what each does with a proposed scattering event, what it
//! emits, and the density of its own reflection.
use vstd::prelude::*;
use crate::ray::Ray;
use crate::vec3::{above, below, less, spec_above, spec_below, spec_less, Scalar, Vec3, ONE, ZERO};

verus! {

/// What the embedding program proposes for one scattering event: the
/// colour, the outgoing ray and the density with which it was drawn,
/// together with the quantities on which a material decides.
#[derive(Debug, Clone, Copy, PartialEq, Eq)]
pub struct Proposal {
    /// The attenuation.
    pub attenuation: Vec3,
    /// The outgoing ray: sampled for a diffuse surface or a medium,
    /// reflected for a metal or a dielectric.
    pub scattered: Ray,
    /// The density with which the outgoing direction was drawn.
    pub pdf: Scalar,
    /// The product of the outgoing direction and the normal.
    pub facing: Option<Scalar>,
    /// The discriminant of refraction: the ray is refracted only where
    /// it is positive, and reflected totally elsewhere.
    pub discriminant: Option<Scalar>,
    /// The refracted ray, which means something only where the
    /// discriminant is positive.
    pub refracted: Ray,
    /// The reflectance of the surface.
    pub reflect_prob: Option<Scalar>,
    /// A uniform draw from the unit interval.
    pub draw: Option<Scalar>,
}

/// A diffuse surface with a texture.
#[derive(Debug, Clone, Copy, PartialEq, Eq)]
pub struct Lambertian {
    pub albedo: usize,
}

/// A mirror with a colour, blurred by `fuzz`.
#[derive(Debug, Clone, Copy, PartialEq, Eq)]
pub struct Metal {
    pub albedo: Vec3,
    pub fuzz: Scalar,
}

/// A transparent surface with a refractive index.
#[derive(Debug, Clone, Copy, PartialEq, Eq)]
pub struct Dielectric {
    pub ref_idx: Scalar,
}

/// A surface that emits the colour of a texture and scatters nothing.
#[derive(Debug, Clone, Copy, PartialEq, Eq)]
pub struct DiffuseLight {
    pub emit: usize,
}

/// The phase function of a medium: scatters evenly in all directions.
#[derive(Debug, Clone, Copy, PartialEq, Eq)]
pub struct Isotropic {
    pub albedo: usize,
}

/// What a surface is made of.
#[derive(Debug, Clone, Copy, PartialEq, Eq)]
pub enum Material {
    OkayLambertian(Lambertian),
    OkayMetal(Metal),
    OkayDielectric(Dielectric),
    OkayDiffuseLight(DiffuseLight),
    OkayIsotropic(Isotropic),
}

/// The colour zero.
pub open spec fn black() -> Vec3 {
    Vec3 { x: ZERO, y: ZERO, z: ZERO }
}

/// What a scattering event hands on: colour, outgoing ray and density.
pub open spec fn accepted(p: Proposal) -> (Vec3, Ray, Scalar) {
    (p.attenuation, p.scattered, p.pdf)
}

impl Lambertian {
    /// The density of the surface's own reflection towards a direction
    /// whose cosine to the normal is `cosine`: `density`, which is that
    /// cosine over pi, and zero below the surface.
    pub open spec fn spec_scattering_pdf(cosine: Option<Scalar>, density: Scalar) -> Scalar {
        if spec_below(cosine, ZERO) {
            ZERO
        } else {
            density
        }
    }

    /// A diffuse surface with the colour of `texture`.
    pub fn new(texture: usize) -> (m: Material)
        ensures
            m == Material::OkayLambertian(Lambertian { albedo: texture }),
    {
        Material::OkayLambertian(Self { albedo: texture })
    }

    /// A diffuse surface always scatters.
    pub fn scatter(&self, p: &Proposal) -> (res: Option<(Vec3, Ray, Scalar)>)
        ensures
            res == Some(accepted(*p)),
    {
        Some((p.attenuation, p.scattered, p.pdf))
    }

    /// The density of the surface's own reflection.
    pub fn scattering_pdf(&self, cosine: Option<Scalar>, density: Scalar) -> (d: Scalar)
        ensures
            d == Self::spec_scattering_pdf(cosine, density),
    {
        if below(cosine, ZERO) {
            ZERO
        } else {
            density
        }
    }
}

impl Metal {
    /// The blur of a metal never exceeds one.
    pub open spec fn capped(fuzz: Option<Scalar>) -> Scalar {
        if spec_below(fuzz, ONE) {
            fuzz->0
        } else {
            ONE
        }
    }

    /// A metal of the given colour; a blur of one or more, or one that is
    /// not a number, counts as one.
    pub fn new(albedo: Vec3, fuzz: Option<Scalar>) -> (m: Material)
        ensures
            m == Material::OkayMetal(Metal { albedo, fuzz: Self::capped(fuzz) }),
    {
        let fuzz = if below(fuzz, ONE) { fuzz.unwrap() } else { ONE };
        Material::OkayMetal(Self { albedo, fuzz })
    }

    /// A metal scatters unless the reflected ray points into the surface.
    pub fn scatter(&self, p: &Proposal) -> (res: Option<(Vec3, Ray, Scalar)>)
        ensures
            res == if spec_above(p.facing, ZERO) {
                Some(accepted(*p))
            } else {
                None
            },
    {
        if above(p.facing, ZERO) {
            Some((p.attenuation, p.scattered, p.pdf))
        } else {
            None
        }
    }
}

impl Dielectric {
    /// The ray that leaves a dielectric: the reflected one where the
    /// discriminant of refraction is not positive or the draw falls below
    /// the reflectance, else the refracted one.
    pub open spec fn outgoing(p: Proposal) -> Ray {
        if spec_above(p.discriminant, ZERO) && !spec_less(p.draw, p.reflect_prob) {
            p.refracted
        } else {
            p.scattered
        }
    }

    /// A dielectric with the given refractive index.
    pub fn new(ref_idx: Scalar) -> (m: Material)
        ensures
            m == Material::OkayDielectric(Dielectric { ref_idx }),
    {
        Material::OkayDielectric(Self { ref_idx })
    }

    /// A dielectric always scatters, by reflection or by refraction.
    pub fn scatter(&self, p: &Proposal) -> (res: Option<(Vec3, Ray, Scalar)>)
        ensures
            res == Some((p.attenuation, Self::outgoing(*p), p.pdf)),
    {
        let out = if above(p.discriminant, ZERO) {
            if less(p.draw, p.reflect_prob) {
                p.scattered
            } else {
                p.refracted
            }
        } else {
            p.scattered
        };
        Some((p.attenuation, out, p.pdf))
    }
}

impl DiffuseLight {
    /// A light with the colour of the texture `emit`.
    pub fn new(emit: usize) -> (m: Material)
        ensures
            m == Material::OkayDiffuseLight(DiffuseLight { emit }),
    {
        Material::OkayDiffuseLight(Self { emit })
    }

    /// A light never scatters.
    pub fn scatter(&self, p: &Proposal) -> (res: Option<(Vec3, Ray, Scalar)>)
        ensures
            res.is_none(),
    {
        None
    }

    /// What the light emits towards a ray whose direction has the product
    /// `facing` with the normal: the colour of its texture where the ray
    /// arrives against the normal, and nothing on the back. `texture` is
    /// asked for the colour, and only on the front.
    pub fn emitted<X: FnOnce(usize) -> Vec3>(&self, facing: Option<Scalar>, texture: X) -> (c: Vec3)
        requires
            call_requires(texture, (self.emit,)),
        ensures
            spec_below(facing, ZERO) ==> call_ensures(texture, (self.emit,), c),
            !spec_below(facing, ZERO) ==> c == black(),
    {
        if below(facing, ZERO) {
            texture(self.emit)
        } else {
            Vec3::new(ZERO, ZERO, ZERO)
        }
    }
}

impl Isotropic {
    /// A phase function with the colour of the texture `albedo`.
    pub fn new(albedo: usize) -> (m: Material)
        ensures
            m == Material::OkayIsotropic(Isotropic { albedo }),
    {
        Material::OkayIsotropic(Self { albedo })
    }

    /// A medium always scatters.
    pub fn scatter(&self, p: &Proposal) -> (res: Option<(Vec3, Ray, Scalar)>)
        ensures
            res == Some(accepted(*p)),
    {
        Some((p.attenuation, p.scattered, p.pdf))
    }
}

impl Material {
    /// What the material does with a proposed scattering event.
    pub open spec fn spec_scatter(self, p: Proposal) -> Option<(Vec3, Ray, Scalar)> {
        match self {
            Material::OkayLambertian(_) => Some(accepted(p)),
            Material::OkayMetal(_) => if spec_above(p.facing, ZERO) {
                Some(accepted(p))
            } else {
                None
            },
            Material::OkayDielectric(_) => Some((p.attenuation, Dielectric::outgoing(p), p.pdf)),
            Material::OkayDiffuseLight(_) => None,
            Material::OkayIsotropic(_) => Some(accepted(p)),
        }
    }

    /// The density of the material's own reflection: that of a diffuse
    /// surface, and zero for every other material.
    pub open spec fn spec_scattering_pdf(self, cosine: Option<Scalar>, density: Scalar) -> Scalar {
        match self {
            Material::OkayLambertian(_) => Lambertian::spec_scattering_pdf(cosine, density),
            _ => ZERO,
        }
    }

    /// Whether the material emits towards a ray with the product `facing`.
    pub open spec fn emits(self, facing: Option<Scalar>) -> bool {
        self is OkayDiffuseLight && spec_below(facing, ZERO)
    }

    /// Decides on a proposed scattering event: the colour, the outgoing ray
    /// and the density that go on, or nothing where the material absorbs.
    pub fn scatter(&self, p: &Proposal) -> (res: Option<(Vec3, Ray, Scalar)>)
        ensures
            res == self.spec_scatter(*p),
    {
        match self {
            Material::OkayLambertian(inner) => inner.scatter(p),
            Material::OkayMetal(inner) => inner.scatter(p),
            Material::OkayDielectric(inner) => inner.scatter(p),
            Material::OkayDiffuseLight(inner) => inner.scatter(p),
            Material::OkayIsotropic(inner) => inner.scatter(p),
        }
    }

    /// The density of the material's own reflection towards a direction
    /// whose cosine to the normal is `cosine`; `density` is that cosine over
    /// pi.
    pub fn scattering_pdf(&self, cosine: Option<Scalar>, density: Scalar) -> (d: Scalar)
        ensures
            d == self.spec_scattering_pdf(cosine, density),
    {
        match self {
            Material::OkayLambertian(inner) => inner.scattering_pdf(cosine, density),
            _ => ZERO,
        }
    }

    /// What the material emits: the colour of a light's texture on its
    /// front, and nothing otherwise. `texture` is asked only for a light
    /// seen from the front.
    pub fn emitted<X: FnOnce(usize) -> Vec3>(&self, facing: Option<Scalar>, texture: X) -> (c: Vec3)
        requires
            forall|id: usize| call_requires(texture, (id,)),
        ensures
            self.emits(facing) ==> call_ensures(texture, (self->OkayDiffuseLight_0.emit,), c),
            !self.emits(facing) ==> c == black(),
    {
        match self {
            Material::OkayDiffuseLight(inner) => inner.emitted(facing, texture),
            _ => Vec3::new(ZERO, ZERO, ZERO),
        }
    }
}

} // verus!
