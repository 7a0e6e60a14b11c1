//! How each kind of surface scatters an incoming ray.
use vstd::prelude::*;
use rand::rngs::StdRng;
use crate::fixed::{
    add_spec, clamp, clamp_wide, div_spec, fx_add, fx_div, fx_mul, fx_sub, in_range, trunc_div,
    isqrt, isqrt_spec, mul_spec, sub_spec, ONE,
};
use crate::hittable::{hit_wf, HitRecord};
use crate::random::{in_unit_sphere, random_fraction, random_in_unit_sphere};
use crate::ray::{ray_wf, Ray};
use crate::vec3::{
    dot_raw, dot_spec, length_spec, unit_spec, vadd, vec3, vneg, vscale, vsub, wf, Vec3,
};

verus! {

#[derive(Clone, Copy, Debug, PartialEq, Eq, Structural)]
pub enum Material {
    /// Diffuse reflectance.
    Lambertian { albedo: Vec3 },
    /// Specular reflectance, perturbed by `fuzz` (limited to `[0, 1]`).
    Metal { albedo: Vec3, fuzz: i64 },
    /// A clear refracting surface.
    Dielectric { ref_idx: i64 },
}

impl Default for Material {
    /// A black diffuse surface.
    fn default() -> (m: Material)
        ensures
            m == (Material::Lambertian { albedo: vec3(0, 0, 0) }),
    {
        Material::Lambertian { albedo: Vec3 { x: 0, y: 0, z: 0 } }
    }
}

pub open spec fn material_wf(m: Material) -> bool {
    match m {
        Material::Lambertian { albedo } => wf(albedo),
        Material::Metal { albedo, fuzz } => wf(albedo) && in_range(fuzz as int),
        Material::Dielectric { ref_idx } => in_range(ref_idx as int),
    }
}

/// The mirror image of `v` about the normal `n`: `v - 2 (v · n) n`.
pub open spec fn reflect_spec(v: Vec3, n: Vec3) -> Vec3 {
    vsub(v, vscale(n, clamp(2 * dot_spec(v, n))))
}

/// The discriminant of Snell's law at scale `ONE⁴`:
/// `1 - k² (1 - dt²)` for the cosine `dt` and the index ratio `k`.
pub open spec fn refract_disc(dt: int, k: int) -> int {
    (ONE * ONE) * (ONE * ONE) - (k * k) * (ONE * ONE - dt * dt)
}

/// The refracted direction of `v` through a surface with normal `n`, for the
/// ratio of indices `k`; `None` on total internal reflection.
pub open spec fn refract_spec(v: Vec3, n: Vec3, k: int) -> Option<Vec3> {
    let uv = unit_spec(v);
    let dt = dot_spec(uv, n);
    let disc = refract_disc(dt, k);
    if disc > 0 {
        Some(vsub(vscale(vsub(uv, vscale(n, dt)), k), vscale(n, clamp(isqrt_spec(disc) / ONE as int))))
    } else {
        None
    }
}

/// `x⁵` in fixed point, multiplied left to right.
pub open spec fn pow5_spec(x: int) -> int {
    mul_spec(mul_spec(mul_spec(mul_spec(x, x), x), x), x)
}

/// Schlick's approximation of reflectance at `cosine` for the index `ref_idx`.
pub open spec fn schlick_spec(cosine: int, ref_idx: int) -> int {
    let r = div_spec(sub_spec(ONE as int, ref_idx), add_spec(ONE as int, ref_idx));
    let r0 = mul_spec(r, r);
    add_spec(r0, mul_spec(sub_spec(ONE as int, r0), pow5_spec(sub_spec(ONE as int, cosine))))
}

/// `fuzz` limited to `[0, 1]`.
pub open spec fn fuzz_spec(fuzz: int) -> int {
    if fuzz < 0 {
        0
    } else if fuzz > ONE {
        ONE as int
    } else {
        fuzz
    }
}

/// The normal facing the incoming direction, the ratio of indices, and the
/// cosine that Schlick's approximation uses.
pub open spec fn dielectric_setup(d: Vec3, n: Vec3, ref_idx: int) -> (Vec3, int, int) {
    let dn = dot_spec(d, n);
    if dn > 0 {
        (vneg(n), ref_idx, div_spec(mul_spec(ref_idx, dn), length_spec(d)))
    } else {
        (n, div_spec(ONE as int, ref_idx), div_spec(-dn, length_spec(d)))
    }
}

/// The attenuation and outgoing ray for the point `s` drawn in the unit sphere
/// and the value `coin` drawn in `[0, 1)`; `None` where the ray is absorbed.
pub open spec fn scatter_spec(m: Material, ray_in: Ray, rec: HitRecord, s: Vec3, coin: int) -> Option<(Vec3, Ray)> {
    match m {
        Material::Lambertian { albedo } => {
            let target = vadd(vadd(rec.p, rec.normal), s);
            Some((albedo, Ray { orig: rec.p, dir: vsub(target, rec.p) }))
        },
        Material::Metal { albedo, fuzz } => {
            let reflected = reflect_spec(unit_spec(ray_in.dir), rec.normal);
            let d = vadd(reflected, vscale(s, fuzz_spec(fuzz as int)));
            if dot_spec(d, rec.normal) > 0 {
                Some((albedo, Ray { orig: rec.p, dir: d }))
            } else {
                None
            }
        },
        Material::Dielectric { ref_idx } => {
            let (outward, ni_over_nt, cosine) = dielectric_setup(ray_in.dir, rec.normal, ref_idx as int);
            let refracted = refract_spec(ray_in.dir, outward, ni_over_nt);
            let reflect_prob = match refracted {
                Some(_) => schlick_spec(cosine, ref_idx as int),
                None => ONE as int,
            };
            let dir = if coin < reflect_prob || refracted.is_none() {
                reflect_spec(ray_in.dir, rec.normal)
            } else {
                refracted.unwrap()
            };
            Some((vec3(ONE as int, ONE as int, ONE as int), Ray { orig: rec.p, dir }))
        },
    }
}

/// The mirror image of `v` about `n`.
pub fn reflect(v: &Vec3, n: &Vec3) -> (r: Vec3)
    requires
        wf(*v),
        wf(*n),
    ensures
        r == reflect_spec(*v, *n),
        wf(r),
{
    let d = Vec3::dot(v, n);
    v.sub(n.scale(fx_add(d, d)))
}

/// Snell's law: the refracted direction, or `None` on total internal reflection.
pub fn refract(v: &Vec3, n: &Vec3, ni_over_nt: i64) -> (r: Option<Vec3>)
    requires
        wf(*v),
        wf(*n),
        in_range(ni_over_nt as int),
    ensures
        r == refract_spec(*v, *n, ni_over_nt as int),
        r.is_some() ==> wf(r.unwrap()),
{
    let uv = Vec3::unit_vector(v);
    let dt = Vec3::dot(&uv, n);
    let k = ni_over_nt as i128;
    let one2: i128 = 0x1_0000_0000;
    assert(one2 == ONE * ONE);
    proof {
        assert(0 <= (k * k) <= 0x4000_0000_0000_0000) by (nonlinear_arith)
            requires
                -0x8000_0000 <= k <= 0x8000_0000,
        ;
        assert(0 <= (dt as int) * (dt as int) <= 0x4000_0000_0000_0000) by (nonlinear_arith)
            requires
                -0x8000_0000 <= dt <= 0x8000_0000,
        ;
    }
    let kk: i128 = k * k;
    let rest: i128 = one2 - (dt as i128) * (dt as i128);
    proof {
        assert(-0x1000_0000_0000_0000_0000_0000_0000_0000 <= kk * rest <= 0x1000_0000_0000_0000_0000_0000_0000_0000)
            by (nonlinear_arith)
            requires
                0 <= kk <= 0x4000_0000_0000_0000,
                -0x4000_0000_0000_0000 <= rest <= 0x1_0000_0000,
        ;
    }
    let disc: i128 = one2 * one2 - kk * rest;
    if disc > 0 {
        proof {
            assert(disc < 0x4000_0000_0000_0000_0000_0000_0000_0000);
        }
        let root = clamp_wide(isqrt(disc) / (ONE as i128));
        Some(uv.sub(n.scale(dt)).scale(ni_over_nt).sub(n.scale(root)))
    } else {
        None
    }
}

/// Schlick's approximation of the reflectance at `cosine`.
pub fn schlick(cosine: i64, ref_idx: i64) -> (r: i64)
    requires
        in_range(cosine as int),
        in_range(ref_idx as int),
    ensures
        r == schlick_spec(cosine as int, ref_idx as int),
        in_range(r as int),
{
    let r = fx_div(fx_sub(ONE, ref_idx), fx_add(ONE, ref_idx));
    let r0 = fx_mul(r, r);
    let x = fx_sub(ONE, cosine);
    let p5 = fx_mul(fx_mul(fx_mul(fx_mul(x, x), x), x), x);
    fx_add(r0, fx_mul(fx_sub(ONE, r0), p5))
}

/// The attenuation that each material applies: its albedo, or white for a
/// dielectric.
pub open spec fn attenuation_of(m: Material) -> Vec3 {
    match m {
        Material::Lambertian { albedo } => albedo,
        Material::Metal { albedo, .. } => albedo,
        Material::Dielectric { .. } => vec3(ONE as int, ONE as int, ONE as int),
    }
}

/// Scattering for a given point `s` of the unit sphere and a given `coin` in
/// `[0, 1)`: the attenuation and the outgoing ray, or `None` on absorption.
pub fn scatter_with(material: &Material, ray_in: &Ray, rec: &HitRecord, s: Vec3, coin: i64) -> (r: Option<(Vec3, Ray)>)
    requires
        material_wf(*material),
        ray_wf(*ray_in),
        hit_wf(*rec),
        wf(s),
    ensures
        r == scatter_spec(*material, *ray_in, *rec, s, coin as int),
        r.is_some() ==> r.unwrap().0 == attenuation_of(*material) && ray_wf(r.unwrap().1),
{
    match material {
        Material::Lambertian { albedo } => {
            let target = rec.p.add(rec.normal).add(s);
            Some((*albedo, Ray::new(rec.p, target.sub(rec.p))))
        },
        Material::Metal { albedo, fuzz } => {
            let f = if *fuzz < 0 {
                0
            } else if *fuzz > ONE {
                ONE
            } else {
                *fuzz
            };
            let reflected = reflect(&Vec3::unit_vector(&ray_in.dir), &rec.normal);
            let d = reflected.add(s.scale(f));
            if Vec3::dot(&d, &rec.normal) > 0 {
                Some((*albedo, Ray::new(rec.p, d)))
            } else {
                None
            }
        },
        Material::Dielectric { ref_idx } => {
            let d = ray_in.dir;
            let dn = Vec3::dot(&d, &rec.normal);
            let (outward, ni_over_nt, cosine) = if dn > 0 {
                (rec.normal.neg(), *ref_idx, fx_div(fx_mul(*ref_idx, dn), d.length()))
            } else {
                (rec.normal, fx_div(ONE, *ref_idx), fx_div(-dn, d.length()))
            };
            let refracted = refract(&d, &outward, ni_over_nt);
            let reflect_prob = match refracted {
                Some(_) => schlick(cosine, *ref_idx),
                None => ONE,
            };
            let dir = if coin < reflect_prob {
                reflect(&d, &rec.normal)
            } else {
                match refracted {
                    Some(v) => v,
                    None => reflect(&d, &rec.normal),
                }
            };
            Some((Vec3 { x: ONE, y: ONE, z: ONE }, Ray::new(rec.p, dir)))
        },
    }
}

/// Scatters `ray_in` at `rec`, drawing the random values from `rng`. On
/// success it stores the attenuation and the outgoing ray and returns `true`;
/// on absorption it returns `false` and leaves both as they were.
pub fn scatter(
    material: &Material,
    ray_in: &Ray,
    rec: &HitRecord,
    attenuation: &mut Vec3,
    scattered: &mut Ray,
    rng: &mut StdRng,
) -> (r: bool)
    requires
        material_wf(*material),
        ray_wf(*ray_in),
        hit_wf(*rec),
    ensures
        exists|s: Vec3, coin: int|
            in_unit_sphere(s) && 0 <= coin < ONE && #[trigger] scatter_spec(*material, *ray_in, *rec, s, coin)
                == (if r {
                Some((*final(attenuation), *final(scattered)))
            } else {
                None
            }),
        r ==> *final(attenuation) == attenuation_of(*material) && ray_wf(*final(scattered)),
        !r ==> *final(attenuation) == *old(attenuation) && *final(scattered) == *old(scattered),
{
    let s = random_in_unit_sphere(rng);
    let coin = random_fraction(rng);
    match scatter_with(material, ray_in, rec, s, coin) {
        Some((a, o)) => {
            *attenuation = a;
            *scattered = o;
            true
        },
        None => false,
    }
}

/// Each component of a unit vector lies in `[-1, 1]`.
pub proof fn lemma_unit_bounded(v: Vec3)
    requires
        wf(v),
    ensures
        -ONE <= unit_spec(v).x <= ONE,
        -ONE <= unit_spec(v).y <= ONE,
        -ONE <= unit_spec(v).z <= ONE,
{
    let sum = dot_raw(v, v);
    assert(0 <= v.x * v.x && 0 <= v.y * v.y && 0 <= v.z * v.z) by (nonlinear_arith);
    crate::fixed::lemma_isqrt_bounds(sum);
    let len = length_spec(v);
    lemma_component_bounded(v.x as int, sum, len);
    lemma_component_bounded(v.y as int, sum, len);
    lemma_component_bounded(v.z as int, sum, len);
}

/// A component `x` with `x² <= sum`, divided by `len = clamp(√sum)`, lies in
/// `[-1, 1]`.
proof fn lemma_component_bounded(x: int, sum: int, len: int)
    requires
        in_range(x),
        x * x <= sum,
        sum >= 0,
        len == clamp(isqrt_spec(sum)),
    ensures
        -ONE <= div_spec(x, len) <= ONE,
{
    crate::fixed::lemma_isqrt_bounds(sum);
    let r = isqrt_spec(sum);
    let m = if x >= 0 { x } else { -x };
    assert(m * m == x * x) by (nonlinear_arith)
        requires
            m == x || m == -x,
    ;
    assert(m <= r) by (nonlinear_arith)
        requires
            m * m <= sum,
            sum < (r + 1) * (r + 1),
            m >= 0,
            r >= 0,
    ;
    if len > 0 {
        assert(m <= len);
        assert(m * ONE <= len * ONE) by (nonlinear_arith)
            requires
                m <= len,
        ;
        vstd::arithmetic::div_mod::lemma_div_is_ordered(m * ONE, len * ONE, len);
        vstd::arithmetic::div_mod::lemma_div_multiples_vanish(ONE as int, len);
        assert(len * ONE == ONE * len);
        vstd::arithmetic::div_mod::lemma_div_is_ordered(0, m * ONE, len);
        assert(x * ONE == m * ONE || x * ONE == -(m * ONE));
    }
}

/// A metal without fuzz reflects exactly: the outgoing direction is
/// `d - 2 (d · n) n` for the unit incoming direction `d`, whatever point of the
/// unit sphere was drawn, and the ray is absorbed exactly when that points
/// into the surface.
pub proof fn lemma_metal_without_fuzz_mirrors(albedo: Vec3, ray_in: Ray, rec: HitRecord, s: Vec3, coin: int)
    requires
        wf(albedo),
        ray_wf(ray_in),
        hit_wf(rec),
        in_unit_sphere(s),
    ensures
        ({
            let reflected = reflect_spec(unit_spec(ray_in.dir), rec.normal);
            scatter_spec(Material::Metal { albedo, fuzz: 0 }, ray_in, rec, s, coin) == if dot_spec(
                reflected,
                rec.normal,
            ) > 0 {
                Some((albedo, Ray { orig: rec.p, dir: reflected }))
            } else {
                None
            }
        }),
{
    let reflected = reflect_spec(unit_spec(ray_in.dir), rec.normal);
    assert(vscale(s, 0) == vec3(0, 0, 0));
    assert(vadd(reflected, vec3(0, 0, 0)) == reflected);
}

/// Where the indices on both sides are equal, light goes straight through:
/// for a direction arriving against the normal `n` (components in `[-1, 1]`),
/// the refracted direction is the unit incoming direction.
pub proof fn lemma_refract_same_index_straight(v: Vec3, n: Vec3)
    requires
        wf(v),
        -ONE <= n.x <= ONE,
        -ONE <= n.y <= ONE,
        -ONE <= n.z <= ONE,
        dot_spec(unit_spec(v), n) < 0,
    ensures
        refract_spec(v, n, ONE as int) == Some(unit_spec(v)),
{
    let uv = unit_spec(v);
    lemma_unit_bounded(v);
    let dt = dot_spec(uv, n);
    let disc = refract_disc(dt, ONE as int);
    assert(disc == (ONE * dt) * (ONE * dt)) by (nonlinear_arith)
        requires
            disc == (ONE * ONE) * (ONE * ONE) - (ONE * ONE) * (ONE * ONE - dt * dt),
    ;
    let root = ONE * (-dt);
    assert(root * root == disc) by (nonlinear_arith)
        requires
            root == ONE * (-dt),
            disc == (ONE * dt) * (ONE * dt),
    ;
    assert(disc < (root + 1) * (root + 1)) by (nonlinear_arith)
        requires
            root * root == disc,
            root > 0,
    ;
    crate::fixed::lemma_isqrt_unique(disc, root);
    vstd::arithmetic::div_mod::lemma_div_multiples_vanish(-dt, ONE as int);
    assert(isqrt_spec(disc) / ONE as int == -dt);
    lemma_dot_small(uv, n);
    lemma_straight_component(uv.x as int, n.x as int, dt);
    lemma_straight_component(uv.y as int, n.y as int, dt);
    lemma_straight_component(uv.z as int, n.z as int, dt);
    let w = vsub(uv, vscale(n, dt));
    crate::fixed::lemma_mul_one(w.x as int);
    crate::fixed::lemma_mul_one(w.y as int);
    crate::fixed::lemma_mul_one(w.z as int);
    assert(vscale(w, ONE as int) == w);
    assert(vsub(w, vscale(n, -dt)) == uv);
}

/// The dot product of vectors with components in `[-1, 1]` lies in `[-3, 3]`.
proof fn lemma_dot_small(a: Vec3, b: Vec3)
    requires
        -ONE <= a.x <= ONE,
        -ONE <= a.y <= ONE,
        -ONE <= a.z <= ONE,
        -ONE <= b.x <= ONE,
        -ONE <= b.y <= ONE,
        -ONE <= b.z <= ONE,
    ensures
        -3 * ONE <= dot_spec(a, b) <= 3 * ONE,
{
    let d = dot_raw(a, b);
    assert(-3 * ONE * ONE <= d <= 3 * ONE * ONE) by (nonlinear_arith)
        requires
            d == a.x * b.x + a.y * b.y + a.z * b.z,
            -65536 <= a.x <= 65536,
            -65536 <= a.y <= 65536,
            -65536 <= a.z <= 65536,
            -65536 <= b.x <= 65536,
            -65536 <= b.y <= 65536,
            -65536 <= b.z <= 65536,
    ;
    let m = if d >= 0 { d } else { -d };
    vstd::arithmetic::div_mod::lemma_div_is_ordered(m, 3 * ONE * ONE, ONE as int);
    vstd::arithmetic::div_mod::lemma_div_multiples_vanish(3 * ONE, ONE as int);
    assert(ONE * (3 * ONE) == 3 * ONE * ONE);
    vstd::arithmetic::div_mod::lemma_div_is_ordered(0, m, ONE as int);
}

/// One component of the straight-through refraction: subtracting
/// `n · dt` and then `n · (-dt)` gives back `u`.
proof fn lemma_straight_component(u: int, n: int, dt: int)
    requires
        -ONE <= u <= ONE,
        -ONE <= n <= ONE,
        -3 * ONE <= dt <= 3 * ONE,
    ensures
        sub_spec(sub_spec(u, mul_spec(n, dt)), mul_spec(n, -dt)) == u,
{
    let p = n * dt;
    assert(-3 * ONE * ONE <= p <= 3 * ONE * ONE) by (nonlinear_arith)
        requires
            p == n * dt,
            -65536 <= n <= 65536,
            -196608 <= dt <= 196608,
    ;
    assert(n * (-dt) == -p) by (nonlinear_arith)
        requires
            p == n * dt,
    ;
    let m = if p >= 0 { p } else { -p };
    vstd::arithmetic::div_mod::lemma_div_is_ordered(m, 3 * ONE * ONE, ONE as int);
    vstd::arithmetic::div_mod::lemma_div_multiples_vanish(3 * ONE, ONE as int);
    assert(ONE * (3 * ONE) == 3 * ONE * ONE);
    vstd::arithmetic::div_mod::lemma_div_is_ordered(0, m, ONE as int);
}

/// A dielectric whose index is one does not bend light: it either passes the
/// ray straight through along its unit direction or reflects it, for a normal
/// with components in `[-1, 1]` that the ray meets at a nonzero angle.
pub proof fn lemma_dielectric_same_index_straight(ray_in: Ray, rec: HitRecord, s: Vec3, coin: int)
    requires
        ray_wf(ray_in),
        hit_wf(rec),
        -ONE <= rec.normal.x <= ONE,
        -ONE <= rec.normal.y <= ONE,
        -ONE <= rec.normal.z <= ONE,
        (dot_spec(ray_in.dir, rec.normal) > 0 && dot_spec(unit_spec(ray_in.dir), rec.normal) > 0) || (dot_spec(
            ray_in.dir,
            rec.normal,
        ) <= 0 && dot_spec(unit_spec(ray_in.dir), rec.normal) < 0),
    ensures
        ({
            let out = scatter_spec(Material::Dielectric { ref_idx: ONE }, ray_in, rec, s, coin);
            &&& out is Some
            &&& out.unwrap().0 == vec3(ONE as int, ONE as int, ONE as int)
            &&& out.unwrap().1.orig == rec.p
            &&& (out.unwrap().1.dir == unit_spec(ray_in.dir) || out.unwrap().1.dir == reflect_spec(ray_in.dir, rec.normal))
        }),
{
    let d = ray_in.dir;
    let n = rec.normal;
    let uv = unit_spec(d);
    lemma_unit_bounded(d);
    vstd::arithmetic::div_mod::lemma_div_multiples_vanish(ONE as int, ONE as int);
    assert(div_spec(ONE as int, ONE as int) == ONE);
    if dot_spec(d, n) > 0 {
        let m = vneg(n);
        let raw = dot_raw(uv, n);
        assert(m.x == -n.x && m.y == -n.y && m.z == -n.z);
        assert(dot_raw(uv, m) == -raw) by (nonlinear_arith)
            requires
                m.x == -n.x,
                m.y == -n.y,
                m.z == -n.z,
                raw == dot_raw(uv, n),
                dot_raw(uv, m) == uv.x * m.x + uv.y * m.y + uv.z * m.z,
                dot_raw(uv, n) == uv.x * n.x + uv.y * n.y + uv.z * n.z,
        ;
        assert(trunc_div(-raw, ONE as int) == -trunc_div(raw, ONE as int));
        assert(dot_spec(uv, m) == -dot_spec(uv, n));
        lemma_refract_same_index_straight(d, m);
    } else {
        lemma_refract_same_index_straight(d, n);
    }
}

} // verus!
