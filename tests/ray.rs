use raytracer::fixed::ONE;
use raytracer::ray::Ray;
use raytracer::vec3::Vec3;

fn p(x: i64, y: i64, z: i64) -> Vec3 {
    Vec3::new(x * ONE, y * ONE, z * ONE)
}

#[test]
fn test_ray_origin() {
    let r = Ray::new(p(1, 2, 3), p(4, 5, 6));
    assert_eq!(r.origin(), p(1, 2, 3));
}

#[test]
fn test_ray_direction() {
    let r = Ray::new(p(1, 2, 3), p(4, 5, 6));
    assert_eq!(r.direction(), p(4, 5, 6));
}

#[test]
fn test_ray_point_at_parameter() {
    let r = Ray::new(p(1, 2, 3), p(4, 5, 6));
    assert_eq!(r.point_at_parameter(2 * ONE), p(9, 12, 15));
    assert_eq!(r.point_at_parameter(ONE / 2), Vec3::new(3 * ONE, 9 * ONE / 2, 6 * ONE));
    assert_eq!(r.point_at_parameter(0), p(1, 2, 3));
}
