use raytracer::fixed::{fx_add, fx_div, fx_mul, fx_sqrt, fx_sub, isqrt, LIMIT, ONE};
use raytracer::vec3::Vec3;

#[test]
fn products_and_quotients() {
    assert_eq!(fx_mul(3 * ONE, ONE / 2), 3 * ONE / 2);
    assert_eq!(fx_mul(-3, ONE / 2), -1);
    assert_eq!(fx_mul(3, ONE / 2), 1);
    assert_eq!(fx_div(ONE, 4 * ONE), ONE / 4);
    assert_eq!(fx_div(-ONE, 3 * ONE), -21845);
    assert_eq!(fx_div(ONE, 0), 0);
}

#[test]
fn arithmetic_saturates() {
    assert_eq!(fx_add(LIMIT, 1), LIMIT);
    assert_eq!(fx_sub(-LIMIT, 1), -LIMIT);
    assert_eq!(fx_mul(LIMIT, 4 * ONE), LIMIT);
    assert_eq!(Vec3::new(i64::MAX, i64::MIN, 5), Vec3 { x: LIMIT, y: -LIMIT, z: 5 });
}

#[test]
fn square_roots() {
    assert_eq!(isqrt(0), 0);
    assert_eq!(isqrt(10), 3);
    assert_eq!(isqrt(16), 4);
    assert_eq!(fx_sqrt(4 * ONE), 2 * ONE);
    assert_eq!(fx_sqrt(ONE / 4), ONE / 2);
    assert_eq!(fx_sqrt(-ONE), 0);
}

#[test]
fn vector_operations() {
    let a = Vec3::new(ONE, 2 * ONE, 3 * ONE);
    let b = Vec3::new(4 * ONE, 5 * ONE, 6 * ONE);
    assert_eq!(Vec3::dot(&a, &b), 32 * ONE);
    assert_eq!(Vec3::cross(&a, &b), Vec3::new(-3 * ONE, 6 * ONE, -3 * ONE));
    assert_eq!(a.add(b), Vec3::new(5 * ONE, 7 * ONE, 9 * ONE));
    assert_eq!(b.sub(a), Vec3::new(3 * ONE, 3 * ONE, 3 * ONE));
    assert_eq!(a.mul(b), Vec3::new(4 * ONE, 10 * ONE, 18 * ONE));
    assert_eq!(a.neg(), Vec3::new(-ONE, -2 * ONE, -3 * ONE));
    assert_eq!(a.squared_length(), 14 * ONE);
    let c = Vec3::new(3 * ONE, 0, 4 * ONE);
    assert_eq!(c.length(), 5 * ONE);
    assert_eq!(Vec3::unit_vector(&c), Vec3::new(39321, 0, 52428));
    assert_eq!(Vec3::unit_vector(&Vec3::zero()), Vec3::zero());
}

#[test]
fn colour_channels() {
    let c = Vec3::new(ONE / 2, ONE / 4, ONE);
    assert_eq!((c.r(), c.g(), c.b()), (ONE / 2, ONE / 4, ONE));
    assert_eq!(c.scale(2 * ONE), Vec3::new(ONE, ONE / 2, 2 * ONE));
    assert_eq!(c.div(2 * ONE), Vec3::new(ONE / 4, ONE / 8, ONE / 2));
}
