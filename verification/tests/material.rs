use pathtracer::material::{
    Dielectric, DiffuseLight, Isotropic, Lambertian, Material, Metal, Proposal,
};
use pathtracer::onb::ONB;
use pathtracer::pdf::{CosinePDF, HitablePDF, MixturePDF};
use pathtracer::ray::Ray;
use pathtracer::vec3::{defined, scalar, vec3, Scalar, Vec3, ONE, ZERO};

fn code(x: f64) -> Scalar {
    let b = (x + 0.0).to_bits() as i64;
    b ^ ((((b >> 63) as u64) >> 1) as i64)
}

fn point(p: [f64; 3]) -> Vec3 {
    vec3(code(p[0]), code(p[1]), code(p[2]))
}

fn proposal() -> Proposal {
    Proposal {
        attenuation: point([0.8, 0.6, 0.4]),
        scattered: Ray::new(point([1.0, 2.0, 3.0]), point([0.0, 1.0, 0.0])),
        pdf: code(0.25),
        facing: Some(code(0.5)),
        discriminant: Some(code(0.4)),
        refracted: Ray::new(point([1.0, 2.0, 3.0]), point([0.0, -1.0, 0.0])),
        reflect_prob: Some(code(0.3)),
        draw: Some(code(0.7)),
    }
}

#[test]
fn ray_accessors() {
    let r = Ray::new(point([1.0, 2.0, 3.0]), point([0.0, 1.0, 0.0]));
    assert_eq!(r.origin(), point([1.0, 2.0, 3.0]));
    assert_eq!(r.direction(), point([0.0, 1.0, 0.0]));
}

#[test]
fn diffuse_surface_always_scatters() {
    let p = proposal();
    let m = Lambertian::new(2);
    assert_eq!(m, Material::OkayLambertian(Lambertian { albedo: 2 }));
    assert_eq!(m.scatter(&p), Some((p.attenuation, p.scattered, p.pdf)));
    let away = Proposal { facing: Some(code(-1.0)), ..p };
    assert_eq!(m.scatter(&away), Some((p.attenuation, p.scattered, p.pdf)));
}

#[test]
fn diffuse_density_is_zero_below_the_surface() {
    let m = Lambertian::new(2);
    let density = code(0.5 / std::f64::consts::PI);
    assert_eq!(m.scattering_pdf(Some(code(0.5)), density), density);
    assert_eq!(m.scattering_pdf(Some(code(0.0)), ZERO), ZERO);
    assert_eq!(m.scattering_pdf(Some(code(-0.5)), code(-0.5 / std::f64::consts::PI)), ZERO);
    let undefined = code(f64::NAN);
    assert_eq!(m.scattering_pdf(defined(undefined), undefined), undefined);
}

#[test]
fn only_a_diffuse_surface_has_a_density_of_its_own() {
    let density = code(0.1);
    for m in [
        Metal::new(scalar(ONE), Some(ZERO)),
        Dielectric::new(code(1.5)),
        DiffuseLight::new(0),
        Isotropic::new(0),
    ] {
        assert_eq!(m.scattering_pdf(Some(code(0.5)), density), ZERO);
    }
}

#[test]
fn light_never_scatters() {
    assert_eq!(DiffuseLight::new(0).scatter(&proposal()), None);
}

#[test]
fn light_emits_only_from_its_front() {
    let texture = |id: usize| {
        assert_eq!(id, 5);
        scalar(code(15.0))
    };
    let light = DiffuseLight::new(5);
    assert_eq!(light.emitted(Some(code(-0.3)), texture), scalar(code(15.0)));
    let unused = |_id: usize| -> Vec3 { panic!("the texture is not asked") };
    assert_eq!(light.emitted(Some(code(0.3)), unused), scalar(ZERO));
    assert_eq!(light.emitted(Some(code(0.0)), unused), scalar(ZERO));
    assert_eq!(light.emitted(None, unused), scalar(ZERO));
}

#[test]
fn other_materials_emit_nothing() {
    let unused = |_id: usize| -> Vec3 { panic!("the texture is not asked") };
    for m in [
        Lambertian::new(1),
        Metal::new(scalar(ONE), Some(ZERO)),
        Dielectric::new(code(1.5)),
        Isotropic::new(0),
    ] {
        assert_eq!(m.emitted(Some(code(-0.3)), unused), scalar(ZERO));
    }
}

#[test]
fn metal_rejects_a_reflection_into_the_surface() {
    let p = proposal();
    let m = Metal::new(point([0.7, 0.6, 0.5]), Some(code(0.2)));
    assert_eq!(m.scatter(&p), Some((p.attenuation, p.scattered, p.pdf)));
    assert_eq!(m.scatter(&Proposal { facing: Some(code(-0.1)), ..p }), None);
    assert_eq!(m.scatter(&Proposal { facing: Some(ZERO), ..p }), None);
    assert_eq!(m.scatter(&Proposal { facing: None, ..p }), None);
}

#[test]
fn metal_blur_is_capped_at_one() {
    let albedo = point([0.7, 0.6, 0.5]);
    assert_eq!(
        Metal::new(albedo, Some(code(0.2))),
        Material::OkayMetal(Metal { albedo, fuzz: code(0.2) })
    );
    assert_eq!(
        Metal::new(albedo, Some(code(3.0))),
        Material::OkayMetal(Metal { albedo, fuzz: ONE })
    );
    assert_eq!(Metal::new(albedo, Some(ONE)), Material::OkayMetal(Metal { albedo, fuzz: ONE }));
    assert_eq!(Metal::new(albedo, None), Material::OkayMetal(Metal { albedo, fuzz: ONE }));
}

#[test]
fn dielectric_reflects_or_refracts() {
    let p = proposal();
    let glass = Dielectric::new(code(1.5));
    // The draw lies above the reflectance: the ray is refracted.
    assert_eq!(glass.scatter(&p), Some((p.attenuation, p.refracted, p.pdf)));
    let low = Proposal { draw: Some(code(0.1)), ..p };
    assert_eq!(glass.scatter(&low), Some((p.attenuation, p.scattered, p.pdf)));
    let even = Proposal { draw: Some(code(0.3)), ..p };
    assert_eq!(glass.scatter(&even), Some((p.attenuation, p.refracted, p.pdf)));
    // Total internal reflection.
    for discriminant in [Some(code(0.0)), Some(code(-0.2)), None] {
        let total = Proposal { discriminant, ..p };
        assert_eq!(glass.scatter(&total), Some((p.attenuation, p.scattered, p.pdf)));
    }
}

#[test]
fn medium_always_scatters() {
    let p = proposal();
    assert_eq!(Isotropic::new(1).scatter(&p), Some((p.attenuation, p.scattered, p.pdf)));
}

#[test]
fn cosine_density_is_zero_off_the_hemisphere() {
    let pdf = CosinePDF::new(ONB {
        u: point([1.0, 0.0, 0.0]),
        v: point([0.0, 1.0, 0.0]),
        w: point([0.0, 0.0, 1.0]),
    });
    let pi = std::f64::consts::PI;
    assert_eq!(pdf.value(Some(code(0.5)), code(0.5 / pi)), code(0.5 / pi));
    assert_eq!(pdf.value(Some(code(1.0)), code(1.0 / pi)), code(1.0 / pi));
    for cosine in [-1.0, -0.5, -1.0e-300, 0.0] {
        assert_eq!(pdf.value(Some(code(cosine)), code(cosine / pi)), ZERO);
    }
    assert_eq!(pdf.value(None, code(f64::NAN)), ZERO);
}

#[test]
fn basis_is_completed_with_an_axis_away_from_w() {
    let x_axis = vec3(ONE, ZERO, ZERO);
    let y_axis = vec3(ZERO, ONE, ZERO);
    let seen = std::cell::Cell::new(scalar(ZERO));
    let complete = |_w: Vec3, a: Vec3| {
        seen.set(a);
        (point([7.0, 7.0, 7.0]), point([8.0, 8.0, 8.0]))
    };
    let w = point([0.0, 0.0, 1.0]);
    let onb = ONB::build_from_w(w, complete);
    assert_eq!(seen.get(), x_axis);
    assert_eq!(onb.w, w);
    assert_eq!(onb.v, point([7.0, 7.0, 7.0]));
    assert_eq!(onb.u, point([8.0, 8.0, 8.0]));
    for (wx, axis) in [
        (0.9, x_axis),
        (0.91, y_axis),
        (1.0, y_axis),
        (-0.9, x_axis),
        (-0.95, y_axis),
        (-1.0, y_axis),
        (0.0, x_axis),
        (f64::NAN, x_axis),
    ] {
        ONB::build_from_w(point([wx, 0.0, 0.0]), complete);
        assert_eq!(seen.get(), axis);
    }
}

#[test]
fn mixture_samples_the_distribution_that_the_coin_names() {
    let mix = MixturePDF::new(HitablePDF::new(9usize, point([0.0; 3])), 4usize);
    let a = |p: &HitablePDF<usize>| {
        assert_eq!(p.hitable, 9);
        point([1.0, 0.0, 0.0])
    };
    let b = |p: &usize| {
        assert_eq!(*p, 4);
        point([0.0, 1.0, 0.0])
    };
    assert_eq!(mix.pick(true, a, b), point([1.0, 0.0, 0.0]));
    assert_eq!(mix.pick(false, a, b), point([0.0, 1.0, 0.0]));
}

#[test]
fn mixture_draws_from_both_distributions_about_equally() {
    let mix = MixturePDF::new((), ());
    let mut first = 0;
    let draws = 20000;
    for _ in 0..draws {
        let d = mix.generate(|_: &()| point([1.0, 0.0, 0.0]), |_: &()| point([0.0, 1.0, 0.0]));
        if d == point([1.0, 0.0, 0.0]) {
            first += 1;
        } else {
            assert_eq!(d, point([0.0, 1.0, 0.0]));
        }
    }
    // Six standard deviations of a fair coin are about 424 draws.
    assert!(first > draws / 2 - 500 && first < draws / 2 + 500);
}
