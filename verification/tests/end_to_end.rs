use pathtracer::hitable::{HitRecord, HitableList, Roots, Sphere, Surface};
use pathtracer::material::{DiffuseLight, Lambertian, Material, Proposal};
use pathtracer::onb::ONB;
use pathtracer::pdf::CosinePDF;
use pathtracer::ray::Ray;
use pathtracer::render::{PathAction, PathEvent, PathState, MAX_DEPTH};
use pathtracer::vec3::{de_nan, defined, vec3, Scalar, Vec3};

fn code(x: f64) -> Scalar {
    let b = (x + 0.0).to_bits() as i64;
    b ^ ((((b >> 63) as u64) >> 1) as i64)
}

fn number(k: Scalar) -> f64 {
    f64::from_bits((k ^ ((((k >> 63) as u64) >> 1) as i64)) as u64)
}

type V = [f64; 3];

fn pack(p: V) -> Vec3 {
    vec3(code(p[0]), code(p[1]), code(p[2]))
}

fn unpack(p: Vec3) -> V {
    [number(p.x), number(p.y), number(p.z)]
}

fn dot(a: V, b: V) -> f64 {
    a[0] * b[0] + a[1] * b[1] + a[2] * b[2]
}

fn cross(a: V, b: V) -> V {
    [a[1] * b[2] - a[2] * b[1], a[2] * b[0] - a[0] * b[2], a[0] * b[1] - a[1] * b[0]]
}

fn unit(a: V) -> V {
    let l = dot(a, a).sqrt();
    [a[0] / l, a[1] / l, a[2] / l]
}

struct Lcg(u64);

impl Lcg {
    fn next(&mut self) -> f64 {
        self.0 = self.0.wrapping_mul(6364136223846793005).wrapping_add(1442695040888963407);
        ((self.0 >> 11) as f64) / ((1u64 << 53) as f64)
    }
}

struct Ball {
    center: V,
    radius: f64,
    shape: Sphere,
}

fn ball(center: V, radius: f64, material: usize) -> Ball {
    Ball { center, radius, shape: Sphere::new(pack(center), code(radius), material) }
}

fn hit_ball(b: &Ball, o: V, d: V, lo: Scalar, hi: Scalar) -> Option<HitRecord> {
    let oc = [o[0] - b.center[0], o[1] - b.center[1], o[2] - b.center[2]];
    let a = dot(d, d);
    let half_b = dot(oc, d);
    let c = dot(oc, oc) - b.radius * b.radius;
    let disc = half_b * half_b - a * c;
    let roots = Roots {
        discriminant: defined(code(disc)),
        near: defined(code((-half_b - disc.sqrt()) / a)),
        far: defined(code((-half_b + disc.sqrt()) / a)),
    };
    let surface = |t: Scalar| {
        let t = number(t);
        let p = [o[0] + t * d[0], o[1] + t * d[1], o[2] + t * d[2]];
        Surface {
            u: code(0.0),
            v: code(0.0),
            p: pack(p),
            normal: pack([
                (p[0] - b.center[0]) / b.radius,
                (p[1] - b.center[1]) / b.radius,
                (p[2] - b.center[2]) / b.radius,
            ]),
        }
    };
    b.shape.hit(&roots, &surface, lo, hi)
}

struct Scene {
    world: HitableList<Ball>,
    materials: Vec<Material>,
    colours: Vec<V>,
}

/// A light of emission 15 in front of a grey ball.
fn scene() -> Scene {
    Scene {
        world: HitableList::new(vec![ball([0.0, 3.0, 3.0], 1.0, 0), ball([0.0, 0.0, 0.0], 1.0, 1)]),
        materials: vec![DiffuseLight::new(0), Lambertian::new(1)],
        colours: vec![[15.0; 3], [0.5; 3]],
    }
}

fn basis(n: V) -> ONB {
    ONB::build_from_w(pack(unit(n)), |w: Vec3, a: Vec3| {
        let v = unit(cross(unpack(w), unpack(a)));
        let u = cross(unpack(w), v);
        (pack(v), pack(u))
    })
}

fn cosine_direction(uvw: &ONB, rng: &mut Lcg) -> V {
    let r1 = rng.next();
    let r2 = rng.next();
    let phi = 2.0 * std::f64::consts::PI * r1;
    let (x, y, z) = (phi.cos() * r2.sqrt(), phi.sin() * r2.sqrt(), (1.0 - r2).sqrt());
    let (u, v, w) = (unpack(uvw.u), unpack(uvw.v), unpack(uvw.w));
    [
        x * u[0] + y * v[0] + z * w[0],
        x * u[1] + y * v[1] + z * w[1],
        x * u[2] + y * v[2] + z * w[2],
    ]
}

/// The radiance along a ray, and the number of rays that the path traced.
fn radiance(s: &Scene, o: V, d: V, state: PathState, rng: &mut Lcg) -> (V, usize) {
    let probe = |b: &Ball, lo: Scalar, hi: Scalar| hit_ball(b, o, d, lo, hi);
    let hit = s.world.hit(&probe, code(0.001), code(f64::INFINITY));
    let event = match &hit {
        Some(rec) => PathEvent::Hit { material: rec.material },
        None => PathEvent::Missed,
    };
    let (state, action) = state.step(event).unwrap();
    let rec = match hit {
        Some(rec) => rec,
        None => {
            assert_eq!(action, PathAction::Background);
            return ([0.0; 3], 1);
        }
    };
    let material = match action {
        PathAction::Emit { material } | PathAction::Scatter { material } => material,
        other => panic!("unexpected action {:?}", other),
    };
    let facing = defined(code(dot(unpack(rec.normal), d)));
    let emitted = unpack(s.materials[material].emitted(facing, |t: usize| pack(s.colours[t])));
    if let PathAction::Emit { .. } = action {
        return (emitted, 1);
    }
    let uvw = basis(unpack(rec.normal));
    let out = unit(cosine_direction(&uvw, rng));
    let cosine = dot(unpack(uvw.w), out);
    let density = code(cosine / std::f64::consts::PI);
    let proposal = Proposal {
        attenuation: pack(s.colours[material]),
        scattered: Ray::new(rec.p, pack(out)),
        pdf: density,
        facing: defined(code(cosine)),
        discriminant: None,
        refracted: Ray::new(rec.p, pack(out)),
        reflect_prob: None,
        draw: None,
    };
    let scattered = s.materials[material].scatter(&proposal);
    let (state, action) =
        state.step(PathEvent::Scattered { scattered: scattered.is_some() }).unwrap();
    match (scattered, action) {
        (Some((albedo, ray, _)), PathAction::Trace) => {
            let pdf_val = number(CosinePDF::new(uvw).value(defined(code(cosine)), density));
            let weight =
                number(s.materials[material].scattering_pdf(defined(code(cosine)), density));
            let (next, rays) = radiance(s, unpack(ray.a), unpack(ray.b), state, rng);
            let albedo = unpack(albedo);
            let raw = [
                emitted[0] + albedo[0] * weight * next[0] / pdf_val,
                emitted[1] + albedo[1] * weight * next[1] / pdf_val,
                emitted[2] + albedo[2] * weight * next[2] / pdf_val,
            ];
            (unpack(de_nan(pack(raw))), rays + 1)
        }
        (None, PathAction::Emit { .. }) => (emitted, 1),
        other => panic!("unexpected step {:?}", other),
    }
}

#[test]
fn pixel_that_sees_the_light_is_brighter_than_one_that_sees_its_reflection() {
    let s = scene();
    let mut rng = Lcg(99);
    // One bounce is left to every path.
    let start = PathState::Active { depth: MAX_DEPTH - 1 };
    let (direct, rays) = radiance(&s, [0.0, 3.0, 10.0], [0.0, 0.0, -1.0], start, &mut rng);
    assert_eq!(direct, [15.0; 3]);
    assert_eq!(rays, 1);
    let mut lit = 0;
    for _ in 0..2000 {
        let (bounced, rays) = radiance(&s, [0.0, 0.0, 10.0], [0.0, 0.0, -1.0], start, &mut rng);
        assert_eq!(rays, 2);
        assert!(bounced[0] < direct[0] && bounced[1] < direct[1] && bounced[2] < direct[2]);
        assert!(bounced[0] >= 0.0);
        if bounced[0] > 0.0 {
            lit += 1;
            assert!((bounced[0] - 7.5).abs() < 1.0e-9);
        }
    }
    // The light covers a good part of the hemisphere above the grey ball.
    assert!(lit > 20);
}

#[test]
fn light_seen_from_behind_is_dark() {
    let s = scene();
    let mut rng = Lcg(5);
    // From the centre of the light the ray leaves through its back.
    let (inside, _) =
        radiance(&s, [0.0, 3.0, 3.0], [0.0, 0.0, -1.0], PathState::begin(), &mut rng);
    assert_eq!(inside, [0.0; 3]);
}

#[test]
fn path_that_leaves_the_scene_is_black() {
    let s = scene();
    let mut rng = Lcg(5);
    let (missed, rays) =
        radiance(&s, [5.0, 5.0, 10.0], [0.0, 0.0, -1.0], PathState::begin(), &mut rng);
    assert_eq!(missed, [0.0; 3]);
    assert_eq!(rays, 1);
}

#[test]
fn no_path_traces_more_rays_than_the_depth_allows() {
    let s = scene();
    let mut rng = Lcg(1);
    for _ in 0..500 {
        let (_, rays) =
            radiance(&s, [0.0, 0.0, 10.0], [0.0, 0.0, -1.0], PathState::begin(), &mut rng);
        assert!(rays <= MAX_DEPTH + 1);
    }
}
