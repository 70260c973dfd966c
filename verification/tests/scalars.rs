use pathtracer::vec3::{
    above, below, de_nan, defined, less, negate, scalar, vec3, RawVec3, Scalar, Vec3, INFINITY,
    MAX, MIN, ONE, ZERO,
};

fn code(x: f64) -> Scalar {
    let b = (x + 0.0).to_bits() as i64;
    b ^ ((((b >> 63) as u64) >> 1) as i64)
}

fn number(k: Scalar) -> f64 {
    f64::from_bits((k ^ ((((k >> 63) as u64) >> 1) as i64)) as u64)
}

const SAMPLES: [f64; 12] = [
    f64::NEG_INFINITY,
    -1.0e300,
    -255.99,
    -1.0,
    -1.0e-300,
    0.0,
    5.0e-324,
    0.0001,
    0.9,
    1.0,
    1.0e300,
    f64::INFINITY,
];

#[test]
fn negate_is_the_sign_change_of_the_number() {
    for x in SAMPLES {
        assert_eq!(negate(code(x)), code(-x));
        assert_eq!(number(negate(code(x))), -x + 0.0);
    }
    assert_eq!(negate(ONE), code(-1.0));
    assert_eq!(negate(ZERO), ZERO);
}

#[test]
fn negate_twice_is_the_identity() {
    for x in SAMPLES {
        assert_eq!(negate(negate(code(x))), code(x));
    }
}

#[test]
fn negate_reverses_the_order() {
    for a in SAMPLES {
        for b in SAMPLES {
            if a < b {
                assert!(negate(code(b)) < negate(code(a)));
            }
        }
    }
}

#[test]
fn vector_negation_is_componentwise() {
    let v = vec3(code(1.0), code(-2.0), code(0.0));
    assert_eq!(v.neg(), vec3(code(-1.0), code(2.0), code(0.0)));
}

#[test]
fn constants_are_the_codes_of_their_numbers() {
    assert_eq!(number(ZERO), 0.0);
    assert_eq!(number(ONE), 1.0);
    assert_eq!(number(MAX), f64::MAX);
    assert_eq!(number(MIN), f64::MIN);
    assert_eq!(number(INFINITY), f64::INFINITY);
    assert_eq!(pathtracer::onb::NINE_TENTHS, code(0.9));
    assert_eq!(pathtracer::onb::MINUS_NINE_TENTHS, code(-0.9));
}

#[test]
fn defined_tells_numbers_from_the_rest() {
    for x in SAMPLES {
        assert_eq!(defined(code(x)), Some(code(x)));
    }
    assert_eq!(defined(code(f64::NAN)), None);
    assert_eq!(defined(code(-f64::NAN)), None);
    assert_eq!(defined(code(0.0 / 0.0)), None);
    assert_eq!(defined(code(f64::INFINITY - f64::INFINITY)), None);
    assert_eq!(defined(INFINITY + 1), None);
    assert_eq!(defined(-INFINITY - 1), Some(code(f64::NEG_INFINITY)));
    assert_eq!(defined(-INFINITY - 2), None);
}

#[test]
fn undefined_scalars_compare_with_nothing() {
    assert!(below(Some(code(1.0)), code(2.0)));
    assert!(!below(Some(code(2.0)), code(2.0)));
    assert!(!below(None, code(2.0)));
    assert!(above(Some(code(3.0)), code(2.0)));
    assert!(!above(Some(code(2.0)), code(2.0)));
    assert!(!above(None, code(2.0)));
    assert!(less(Some(code(-1.0)), Some(code(1.0))));
    assert!(!less(Some(code(1.0)), Some(code(1.0))));
    assert!(!less(None, Some(code(1.0))));
    assert!(!less(Some(code(1.0)), None));
    assert!(!less(None, None));
}

#[test]
fn de_nan_replaces_what_is_not_a_number_by_zero() {
    let dirty = vec3(code(f64::NAN), code(0.25), code(0.0 / 0.0));
    assert_eq!(de_nan(dirty), vec3(ZERO, code(0.25), ZERO));
    let clean = vec3(code(1.0), code(f64::INFINITY), code(-3.0));
    assert_eq!(de_nan(clean), clean);
}

#[test]
fn raw_components_are_found_by_axis() {
    let r = RawVec3 { x: Some(1), y: None, z: Some(3) };
    assert_eq!(r.index(0), Some(1));
    assert_eq!(r.index(1), None);
    assert_eq!(r.index(2), Some(3));
}

#[test]
fn vector_accessors() {
    let v = Vec3::new(1, 2, 3);
    assert_eq!((v.r(), v.g(), v.b()), (1, 2, 3));
    assert_eq!((v.index(0), v.index(1), v.index(2)), (1, 2, 3));
    assert_eq!(scalar(7), vec3(7, 7, 7));
    assert_eq!(Vec3::default(), vec3(ZERO, ZERO, ZERO));
}
