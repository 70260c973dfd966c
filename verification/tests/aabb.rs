use pathtracer::aabb::{
    ffmax, ffmin, narrow_interval, narrow_interval_sorted, surrounding_box, Aabb, Slab,
};
use pathtracer::vec3::{defined, vec3, Scalar};

fn code(x: f64) -> Scalar {
    let b = (x + 0.0).to_bits() as i64;
    b ^ ((((b >> 63) as u64) >> 1) as i64)
}

fn number(k: Scalar) -> f64 {
    f64::from_bits((k ^ ((((k >> 63) as u64) >> 1) as i64)) as u64)
}

fn cube(lo: f64, hi: f64) -> Aabb {
    Aabb::new(vec3(code(lo), code(lo), code(lo)), vec3(code(hi), code(hi), code(hi)))
}

fn slab_of(origin: [f64; 3], direction: [f64; 3]) -> impl Fn(usize, Scalar, Scalar) -> Slab {
    move |axis: usize, lo: Scalar, hi: Scalar| {
        let inv_d = 1.0 / direction[axis];
        Slab {
            inv_d: defined(code(inv_d)),
            t0: defined(code((number(lo) - origin[axis]) * inv_d)),
            t1: defined(code((number(hi) - origin[axis]) * inv_d)),
        }
    }
}

#[test]
fn codes_keep_order() {
    let xs = [-1.0e300, -2.5, -1.0, -1.0e-300, 0.0, 1.0e-300, 0.5, 1.0, 4.5, 1.0e300];
    for i in 0..xs.len() {
        assert_eq!(number(code(xs[i])), xs[i]);
        for j in 0..xs.len() {
            assert_eq!(xs[i] < xs[j], code(xs[i]) < code(xs[j]));
        }
    }
    assert_eq!(code(-0.0), code(0.0));
}

#[test]
fn ffmin_ffmax_pick_second_on_ties() {
    assert_eq!(ffmin(code(1.0), code(2.0)), code(1.0));
    assert_eq!(ffmin(code(2.0), code(1.0)), code(1.0));
    assert_eq!(ffmax(code(1.0), code(2.0)), code(2.0));
    assert_eq!(ffmax(code(-3.0), code(-4.0)), code(-3.0));
    assert_eq!(ffmin(code(2.0), code(2.0)), code(2.0));
}

#[test]
fn ray_through_the_box_hits() {
    let b = cube(-1.0, 1.0);
    let slab = slab_of([0.0, 0.0, 5.0], [0.0, 0.0, -1.0]);
    assert!(b.hit(&slab, code(0.001), code(f64::INFINITY)));
    assert!(b.slower_hit(&slab, code(0.001), code(f64::INFINITY)));
}

#[test]
fn ray_beside_the_box_misses() {
    let b = cube(-1.0, 1.0);
    let slab = slab_of([2.0, 0.0, 5.0], [0.0, 0.0, -1.0]);
    assert!(!b.hit(&slab, code(0.001), code(f64::INFINITY)));
    assert!(!b.slower_hit(&slab, code(0.001), code(f64::INFINITY)));
}

#[test]
fn ray_pointing_away_misses() {
    let b = cube(-1.0, 1.0);
    let slab = slab_of([0.0, 0.0, 5.0], [0.0, 0.0, 1.0]);
    assert!(!b.hit(&slab, code(0.001), code(f64::INFINITY)));
    assert!(!b.slower_hit(&slab, code(0.001), code(f64::INFINITY)));
}

#[test]
fn box_beyond_the_interval_misses() {
    let b = cube(-1.0, 1.0);
    let slab = slab_of([0.0, 0.0, 5.0], [0.0, 0.0, -1.0]);
    assert!(!b.hit(&slab, code(0.001), code(3.9)));
    assert!(b.hit(&slab, code(0.001), code(4.1)));
    assert!(!b.hit(&slab, code(6.0), code(100.0)));
    assert!(!b.hit(&slab, code(4.5), code(4.5)));
}

#[test]
fn oblique_ray_with_negative_direction_hits() {
    let b = cube(-1.0, 1.0);
    let slab = slab_of([3.0, 3.0, 3.0], [-1.0, -1.0, -1.0]);
    assert!(b.hit(&slab, code(0.0), code(f64::INFINITY)));
    let beside = slab_of([3.0, 3.0, 3.0], [-1.0, -1.0, 1.0]);
    assert!(!b.hit(&beside, code(0.0), code(f64::INFINITY)));
}

#[test]
fn ray_in_a_face_of_the_box_does_not_crash() {
    let b = cube(-1.0, 1.0);
    // The origin lies in the plane x = 1 and the ray runs inside it: the
    // slab parameters of x are zero times infinity.
    let slab = slab_of([1.0, 0.0, 5.0], [0.0, 0.0, -1.0]);
    assert!(b.hit(&slab, code(0.001), code(f64::INFINITY)));
}

#[test]
fn narrowing_one_slab() {
    let s = Slab { inv_d: Some(code(-1.0)), t0: Some(code(6.0)), t1: Some(code(4.0)) };
    assert_eq!(narrow_interval(s, code(0.0), code(100.0)), Some((code(4.0), code(6.0))));
    assert_eq!(narrow_interval_sorted(s, code(0.0), code(100.0)), Some((code(4.0), code(6.0))));
    assert_eq!(narrow_interval(s, code(0.0), code(4.0)), None);
    assert_eq!(narrow_interval(s, code(5.0), code(5.5)), Some((code(5.0), code(5.5))));
    let forward = Slab { inv_d: Some(code(1.0)), t0: Some(code(6.0)), t1: Some(code(4.0)) };
    assert_eq!(narrow_interval(forward, code(0.0), code(100.0)), None);
    let undefined = Slab { inv_d: None, t0: None, t1: None };
    assert_eq!(narrow_interval(undefined, code(1.0), code(2.0)), Some((code(1.0), code(2.0))));
    assert_eq!(
        narrow_interval_sorted(undefined, code(1.0), code(2.0)),
        Some((code(1.0), code(2.0)))
    );
}

#[test]
fn union_is_componentwise() {
    let a = Aabb::new(vec3(code(0.0), code(1.0), code(2.0)), vec3(code(3.0), code(4.0), code(5.0)));
    let b =
        Aabb::new(vec3(code(-1.0), code(2.0), code(0.5)), vec3(code(2.0), code(6.0), code(5.5)));
    let u = surrounding_box(a, b);
    assert_eq!(u.min, vec3(code(-1.0), code(1.0), code(0.5)));
    assert_eq!(u.max, vec3(code(3.0), code(6.0), code(5.5)));
}

#[test]
fn union_is_associative_and_commutative() {
    let boxes = [
        cube(-1.0, 1.0),
        cube(0.5, 7.0),
        Aabb::new(vec3(code(-3.0), code(2.0), code(0.0)), vec3(code(-2.0), code(9.0), code(0.5))),
        Aabb::new(vec3(code(4.0), code(-8.0), code(1.0)), vec3(code(5.0), code(-7.0), code(1.0))),
    ];
    for a in boxes {
        for b in boxes {
            assert_eq!(surrounding_box(a, b), surrounding_box(b, a));
            for c in boxes {
                assert_eq!(
                    surrounding_box(surrounding_box(a, b), c),
                    surrounding_box(a, surrounding_box(b, c))
                );
            }
        }
        assert_eq!(surrounding_box(a, a), a);
    }
}
