use rand::rngs::StdRng;
use rand::SeedableRng;
use raytracer::fixed::ONE;
use raytracer::hittable::HitRecord;
use raytracer::material::{reflect, refract, scatter, scatter_with, schlick, Material};
use raytracer::random::{random_fraction, random_in_unit_disk, random_in_unit_sphere};
use raytracer::ray::Ray;
use raytracer::vec3::Vec3;

fn p(x: i64, y: i64, z: i64) -> Vec3 {
    Vec3::new(x * ONE, y * ONE, z * ONE)
}

fn floor_hit(m: Material) -> HitRecord {
    HitRecord { t: ONE, p: p(0, 0, 0), normal: p(0, 1, 0), material: m }
}

#[test]
fn lambertian_keeps_albedo_and_aims_off_the_normal() {
    let albedo = Vec3::new(ONE / 2, ONE / 4, ONE);
    let m = Material::Lambertian { albedo };
    let rec = floor_hit(m);
    let ray_in = Ray::new(p(0, 1, 1), p(0, -1, -1));
    let s = Vec3::new(ONE / 2, 0, 0);
    let (att, out) = scatter_with(&m, &ray_in, &rec, s, 0).unwrap();
    assert_eq!(att, albedo);
    assert_eq!(out.origin(), p(0, 0, 0));
    assert_eq!(out.direction(), Vec3::new(ONE / 2, ONE, 0));
}

#[test]
fn metal_keeps_albedo() {
    let albedo = Vec3::new(ONE / 2, ONE / 4, ONE);
    let m = Material::Metal { albedo, fuzz: ONE / 2 };
    let rec = floor_hit(m);
    let ray_in = Ray::new(p(-1, 1, 0), p(1, -1, 0));
    let (att, _) = scatter_with(&m, &ray_in, &rec, Vec3::new(0, ONE / 4, 0), 0).unwrap();
    assert_eq!(att, albedo);
    let mut rng = StdRng::seed_from_u64(7);
    let mut attenuation = Vec3::zero();
    let mut scattered = ray_in;
    if scatter(&m, &ray_in, &rec, &mut attenuation, &mut scattered, &mut rng) {
        assert_eq!(attenuation, albedo);
        assert_eq!(scattered.origin(), p(0, 0, 0));
    } else {
        assert_eq!(attenuation, Vec3::zero());
    }
}

#[test]
fn metal_without_fuzz_mirrors_exactly() {
    let albedo = Vec3::new(ONE, ONE, ONE);
    let m = Material::Metal { albedo, fuzz: 0 };
    let rec = floor_hit(m);
    let ray_in = Ray::new(p(-1, 1, 0), p(1, -1, 0));
    let d = Vec3::unit_vector(&ray_in.direction());
    let (_, out) = scatter_with(&m, &ray_in, &rec, Vec3::new(ONE / 3, -ONE / 3, ONE / 3), 0).unwrap();
    assert_eq!(out.direction(), reflect(&d, &rec.normal));
    assert_eq!(out.direction(), Vec3::new(d.x, -d.y, 0));
    let grazing = Ray::new(p(-1, 0, 0), p(1, 0, 0));
    assert!(scatter_with(&m, &grazing, &rec, Vec3::zero(), 0).is_none());
}

#[test]
fn metal_fuzz_is_limited_to_one() {
    let albedo = Vec3::new(ONE, ONE, ONE);
    let rec = floor_hit(Material::Metal { albedo, fuzz: 5 * ONE });
    let ray_in = Ray::new(p(0, 1, 0), p(0, -1, 0));
    let s = Vec3::new(ONE / 2, 0, 0);
    let wild = scatter_with(&Material::Metal { albedo, fuzz: 5 * ONE }, &ray_in, &rec, s, 0).unwrap();
    let one = scatter_with(&Material::Metal { albedo, fuzz: ONE }, &ray_in, &rec, s, 0).unwrap();
    assert_eq!(wild, one);
    assert_eq!(wild.1.direction(), Vec3::new(ONE / 2, ONE, 0));
}

#[test]
fn reflect_mirrors_about_normal() {
    assert_eq!(reflect(&p(1, -1, 0), &p(0, 1, 0)), p(1, 1, 0));
    assert_eq!(reflect(&p(2, -3, 4), &p(0, 1, 0)), p(2, 3, 4));
}

#[test]
fn same_index_does_not_bend() {
    let v = Vec3::new(3 * ONE, -4 * ONE, 0);
    let n = p(0, 1, 0);
    assert_eq!(refract(&v, &n, ONE), Some(Vec3::new(39321, -52428, 0)));
    let m = Material::Dielectric { ref_idx: ONE };
    let rec = floor_hit(m);
    let ray_in = Ray::new(p(0, 1, 0), v);
    let (att, out) = scatter_with(&m, &ray_in, &rec, Vec3::zero(), ONE / 2).unwrap();
    assert_eq!(att, p(1, 1, 1));
    assert_eq!(out.direction(), Vec3::unit_vector(&v));
}

#[test]
fn total_internal_reflection() {
    let v = Vec3::new(3 * ONE, 1, 0);
    assert_eq!(refract(&v, &p(0, -1, 0), 3 * ONE / 2), None);
    let m = Material::Dielectric { ref_idx: 3 * ONE / 2 };
    let rec = floor_hit(m);
    let ray_in = Ray::new(p(0, 0, 0), v);
    let (att, out) = scatter_with(&m, &ray_in, &rec, Vec3::zero(), ONE - 1).unwrap();
    assert_eq!(att, p(1, 1, 1));
    assert_eq!(out.direction(), reflect(&v, &rec.normal));
}

#[test]
fn schlick_values() {
    assert_eq!(schlick(ONE, 3 * ONE / 2), 2621);
    assert_eq!(schlick(0, 3 * ONE / 2), ONE);
    assert_eq!(schlick(ONE / 2, ONE), 2048);
}

#[test]
fn random_draws_stay_in_range() {
    let mut rng = StdRng::seed_from_u64(11);
    let mut distinct = false;
    let first = random_fraction(&mut rng);
    for _ in 0..200 {
        let f = random_fraction(&mut rng);
        assert!(0 <= f && f < ONE);
        if f != first {
            distinct = true;
        }
        let s = random_in_unit_sphere(&mut rng);
        let n2 = (s.x as i128) * (s.x as i128) + (s.y as i128) * (s.y as i128) + (s.z as i128) * (s.z as i128);
        assert!(n2 < (ONE as i128) * (ONE as i128));
        let d = random_in_unit_disk(&mut rng);
        assert_eq!(d.z, 0);
        assert!((d.x as i128) * (d.x as i128) + (d.y as i128) * (d.y as i128) < (ONE as i128) * (ONE as i128));
    }
    assert!(distinct);
}

#[test]
fn default_material_is_black_diffuse() {
    assert_eq!(Material::default(), Material::Lambertian { albedo: Vec3::zero() });
}
