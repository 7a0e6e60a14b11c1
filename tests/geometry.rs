use raytracer::fixed::{LIMIT, ONE};
use raytracer::hittable::Hittable;
use raytracer::hittable_list::HittableList;
use raytracer::material::Material;
use raytracer::ray::Ray;
use raytracer::sphere::Sphere;
use raytracer::vec3::Vec3;

fn p(x: i64, y: i64, z: i64) -> Vec3 {
    Vec3::new(x * ONE, y * ONE, z * ONE)
}

fn grey() -> Material {
    Material::Lambertian { albedo: Vec3::new(ONE / 2, ONE / 2, ONE / 2) }
}

#[test]
fn sphere_hit_from_outside_reports_near_root() {
    let s = Sphere::sphere(p(0, 0, 0), ONE, grey());
    let r = Ray::new(p(0, 0, 5), p(0, 0, -1));
    let h = s.hit(&r, 0, LIMIT).unwrap();
    assert_eq!(h.t, 4 * ONE);
    assert_eq!(h.p, p(0, 0, 1));
    assert_eq!(h.normal, p(0, 0, 1));
    assert_eq!(h.material, grey());
}

#[test]
fn sphere_hit_from_inside_reports_far_root() {
    let s = Sphere::sphere(p(0, 0, 0), ONE, grey());
    let r = Ray::new(p(0, 0, 0), p(0, 0, -1));
    let h = s.hit(&r, 65, LIMIT).unwrap();
    assert_eq!(h.t, ONE);
    assert_eq!(h.p, p(0, 0, -1));
    assert_eq!(h.normal, p(0, 0, -1));
}

#[test]
fn sphere_miss_and_interval() {
    let s = Sphere::sphere(p(0, 0, 0), ONE, grey());
    let past = Ray::new(p(0, 2, 5), p(0, 0, -1));
    assert!(s.hit(&past, 0, LIMIT).is_none());
    let r = Ray::new(p(0, 0, 5), p(0, 0, -1));
    assert!(s.hit(&r, 0, 3 * ONE).is_none());
    assert_eq!(s.hit(&r, 5 * ONE, LIMIT).unwrap().t, 6 * ONE);
    let degenerate = Sphere::sphere(p(0, 0, 0), 0, grey());
    assert!(degenerate.hit(&r, 0, LIMIT).is_none());
}

#[test]
fn scene_hit_is_closest_in_any_order() {
    let near = Sphere::sphere(p(0, 0, -3), ONE, grey());
    let far = Sphere::sphere(p(0, 0, -6), ONE, Material::Dielectric { ref_idx: 3 * ONE / 2 });
    let r = Ray::new(p(0, 0, 0), p(0, 0, -1));
    let a = HittableList::new(vec![near, far]);
    let b = HittableList::new(vec![far, near]);
    let ha = a.hit(&r, 65, LIMIT).unwrap();
    let hb = b.hit(&r, 65, LIMIT).unwrap();
    assert_eq!(ha.t, 2 * ONE);
    assert_eq!(ha, hb);
    assert_eq!(ha.material, grey());
    let empty = HittableList::new(vec![]);
    assert!(empty.hit(&r, 65, LIMIT).is_none());
}

#[test]
fn short_direction_still_hits() {
    let s = Sphere::sphere(p(0, 0, 0), ONE, grey());
    let r = Ray::new(p(0, 0, 5), Vec3::new(0, 0, -16));
    let h = s.hit(&r, 0, LIMIT).unwrap();
    assert_eq!(h.t, 1 << 30);
    assert_eq!(h.p, p(0, 0, 1));
    assert_eq!(h.normal, p(0, 0, 1));
}
