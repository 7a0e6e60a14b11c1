use rand::rngs::StdRng;
use rand::SeedableRng;
use raytracer::camera::Camera;
use raytracer::fixed::{fx_sqrt, ONE};
use raytracer::hittable_list::HittableList;
use raytracer::material::Material;
use raytracer::ppm::{ppm_header, ppm_image};
use raytracer::ray::Ray;
use raytracer::render::{background, color, quantize, render, render_pixel, tone_map};
use raytracer::sphere::Sphere;
use raytracer::vec3::Vec3;

fn p(x: i64, y: i64, z: i64) -> Vec3 {
    Vec3::new(x * ONE, y * ONE, z * ONE)
}

fn pinhole() -> Camera {
    Camera::new(p(0, 0, 0), p(0, 0, -1), p(0, 1, 0), ONE, ONE, 0, ONE)
}

fn one_diffuse_sphere() -> HittableList {
    HittableList::new(vec![Sphere::sphere(
        p(0, 0, -1),
        ONE / 2,
        Material::Lambertian { albedo: Vec3::new(ONE / 2, ONE / 2, ONE / 2) },
    )])
}

#[test]
fn background_gradient() {
    assert_eq!(background(&Ray::new(p(0, 0, 0), p(0, 1, 0))), Vec3::new(32768, 45875, 65536));
    assert_eq!(background(&Ray::new(p(0, 0, 0), p(0, -1, 0))), p(1, 1, 1));
    assert_eq!(background(&Ray::new(p(0, 0, 0), p(0, 0, -1))), Vec3::new(49152, 55705, 65536));
}

#[test]
fn missing_rays_see_the_background() {
    let world = one_diffuse_sphere();
    let mut rng = StdRng::seed_from_u64(1);
    for d in [p(0, 1, 0), p(1, 0, 0), p(0, -1, 1), Vec3::new(ONE, ONE / 3, -ONE)] {
        let r = Ray::new(p(0, 0, 0), d);
        assert_eq!(color(&r, &world, 0, &mut rng), background(&r));
    }
    let empty = HittableList::new(vec![]);
    let r = Ray::new(p(0, 0, 0), p(0, 0, -1));
    assert_eq!(color(&r, &empty, 0, &mut rng), background(&r));
}

#[test]
fn parallel_mirrors_end_black() {
    let mirror = Material::Metal { albedo: p(1, 1, 1), fuzz: 0 };
    let world = HittableList::new(vec![
        Sphere::sphere(p(3, 0, 0), ONE, mirror),
        Sphere::sphere(p(-3, 0, 0), ONE, mirror),
    ]);
    let mut rng = StdRng::seed_from_u64(2);
    let r = Ray::new(p(0, 0, 0), p(1, 0, 0));
    assert_eq!(color(&r, &world, 0, &mut rng), Vec3::zero());
    assert_eq!(color(&r, &world, 50, &mut rng), Vec3::zero());
}

#[test]
fn hit_at_the_depth_cap_is_black() {
    let world = one_diffuse_sphere();
    let mut rng = StdRng::seed_from_u64(3);
    let r = Ray::new(p(0, 0, 0), p(0, 0, -1));
    assert_eq!(color(&r, &world, 50, &mut rng), Vec3::zero());
}

#[test]
fn same_seed_same_image() {
    let world = one_diffuse_sphere();
    let cam = pinhole();
    let a = render(&cam, &world, 4, 3, 1, 42);
    let b = render(&cam, &world, 4, 3, 1, 42);
    assert_eq!(a.len(), 12);
    assert_eq!(a, b);
    assert_eq!(render_pixel(&cam, &world, 1, 2, 4, 3, 1, 42 + 2 * 4 + 1), a[1]);
}

#[test]
fn empty_scene_renders_background() {
    let empty = HittableList::new(vec![]);
    let cam = pinhole();
    let img = render(&cam, &empty, 5, 4, 2, 9);
    assert_eq!(img.len(), 20);
    let zenith = fx_sqrt(32768);
    for c in &img {
        assert_eq!(c.z, ONE);
        assert!(c.x >= zenith && c.x <= ONE);
    }
}

#[test]
fn tone_map_and_quantize() {
    assert_eq!(tone_map(Vec3::new(ONE / 2, ONE, 2 * ONE), 2), Vec3::new(ONE / 2, fx_sqrt(ONE / 2), ONE));
    assert_eq!(quantize(ONE), 255);
    assert_eq!(quantize(ONE / 2), 127);
    assert_eq!(quantize(0), 0);
}

#[test]
fn ppm_layout() {
    assert_eq!(ppm_header(2, 3), b"P3\n2 3\n255\n".to_vec());
    assert_eq!(ppm_header(720, 1024), b"P3\n720 1024\n255\n".to_vec());
    let pixels = vec![p(1, 1, 1), Vec3::new(ONE / 2, 0, ONE / 4), p(0, 0, 0), p(1, 0, 0), p(0, 1, 0), p(0, 0, 1)];
    let out = ppm_image(2, 3, &pixels);
    let text = String::from_utf8(out).unwrap();
    assert_eq!(text, "P3\n2 3\n255\n255 255 255\n127 0 63\n0 0 0\n255 0 0\n0 255 0\n0 0 255\n");
    assert_eq!(text.lines().count(), 3 + 6);
}

#[test]
fn camera_rays() {
    let cam = pinhole();
    assert_eq!(cam.lens_radius, 0);
    let r = cam.get_ray_with(ONE / 2, ONE / 2, Vec3::new(ONE / 2, ONE / 2, 0));
    assert_eq!(r.origin(), p(0, 0, 0));
    assert_eq!(r.direction(), p(0, 0, -1));
    let corner = cam.get_ray_with(0, 0, Vec3::zero());
    assert_eq!(corner.direction(), p(-1, -1, -1));
    let lens = Camera::new(p(0, 0, 0), p(0, 0, -1), p(0, 1, 0), ONE, ONE, 2 * ONE, ONE);
    assert_eq!(lens.lens_radius, ONE);
    let moved = lens.get_ray_with(ONE / 2, ONE / 2, Vec3::new(ONE / 2, 0, 0));
    assert_eq!(moved.origin(), Vec3::new(ONE / 2, 0, 0));
    assert_eq!(moved.direction(), Vec3::new(-ONE / 2, 0, -ONE));
    let mut rng = StdRng::seed_from_u64(5);
    let drawn = lens.get_ray(ONE / 2, ONE / 2, &mut rng);
    assert_eq!(drawn.origin().z, 0);
}

#[test]
fn mirror_bounce_attenuates_the_sky() {
    let albedo = Vec3::new(ONE / 2, ONE / 2, ONE / 2);
    let world = HittableList::new(vec![Sphere::sphere(
        p(0, -1001, 0),
        1000 * ONE,
        Material::Metal { albedo, fuzz: 0 },
    )]);
    let mut rng = StdRng::seed_from_u64(4);
    let r = Ray::new(p(0, 0, 0), p(0, -1, 0));
    assert_eq!(color(&r, &world, 0, &mut rng), Vec3::new(16384, 22937, 32768));
}

#[test]
fn bounded_albedos_give_bounded_pixels() {
    let world = one_diffuse_sphere();
    let cam = pinhole();
    for c in render(&cam, &world, 6, 4, 3, 17) {
        for ch in [c.x, c.y, c.z] {
            assert!(0 <= ch && ch <= ONE);
        }
    }
}
