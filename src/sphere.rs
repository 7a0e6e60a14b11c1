//! Spheres and their intersection with rays.
use vstd::prelude::*;
use crate::fixed::{div_spec, div_trunc, in_range, isqrt, isqrt_spec, trunc_div, ONE};
use crate::hittable::{HitRecord, Hittable};
use crate::material::{material_wf, Material};
use crate::ray::{point_at, ray_wf, Ray};
use crate::vec3::{dot_raw, dot_wide, vdiv, vsub, wf, Vec3};

verus! {

/// A sphere owning its material.
#[derive(Clone, Copy, Debug, PartialEq, Eq, Structural)]
pub struct Sphere {
    pub center: Vec3,
    pub radius: i64,
    pub material: Material,
}

pub open spec fn sphere_wf(s: Sphere) -> bool {
    wf(s.center) && in_range(s.radius as int) && material_wf(s.material)
}

/// The coefficients `(a, b, c)` of `a t² + 2 b t + c = 0`, whose roots are
/// where the ray meets the sphere, each at a quarter of the exact products'
/// scale, the finest that keeps the discriminant within 128 bits.
pub open spec fn coefficients(s: Sphere, r: Ray) -> (int, int, int) {
    let oc = vsub(r.orig, s.center);
    (
        trunc_div(dot_raw(r.dir, r.dir), 4),
        trunc_div(dot_raw(oc, r.dir), 4),
        trunc_div(dot_raw(oc, oc) - s.radius * s.radius, 4),
    )
}

pub open spec fn discriminant(s: Sphere, r: Ray) -> int {
    let (a, b, c) = coefficients(s, r);
    b * b - a * c
}

/// The smaller root, `(-b - √disc) / a`.
pub open spec fn root_lo(s: Sphere, r: Ray) -> int {
    let (a, b, c) = coefficients(s, r);
    trunc_div((-b - isqrt_spec(discriminant(s, r))) * ONE, a)
}

/// The larger root, `(-b + √disc) / a`.
pub open spec fn root_hi(s: Sphere, r: Ray) -> int {
    let (a, b, c) = coefficients(s, r);
    trunc_div((-b + isqrt_spec(discriminant(s, r))) * ONE, a)
}

/// Whether the ray meets the sphere at two distinct points; a zero radius or
/// a zero-length direction never does.
pub open spec fn crosses(s: Sphere, r: Ray) -> bool {
    s.radius != 0 && coefficients(s, r).0 > 0 && discriminant(s, r) > 0
}

/// The ray parameter of the hit: the smaller root if it lies strictly within
/// `(t_min, t_max)`, else the larger one if that does.
pub open spec fn sphere_t(s: Sphere, r: Ray, t_min: int, t_max: int) -> Option<int> {
    if !crosses(s, r) {
        None
    } else if t_min < root_lo(s, r) < t_max {
        Some(root_lo(s, r))
    } else if t_min < root_hi(s, r) < t_max {
        Some(root_hi(s, r))
    } else {
        None
    }
}

/// The record of a hit at `t`: the point, the normal `(p - center) / radius`
/// (outward for a positive radius) and the sphere's material.
pub open spec fn record_at(s: Sphere, r: Ray, t: int) -> HitRecord {
    let p = point_at(r, t);
    HitRecord { t: t as i64, p, normal: vdiv(vsub(p, s.center), s.radius as int), material: s.material }
}

pub open spec fn sphere_hit(s: Sphere, r: Ray, t_min: int, t_max: int) -> Option<HitRecord> {
    match sphere_t(s, r, t_min, t_max) {
        Some(t) => Some(record_at(s, r, t)),
        None => None,
    }
}

impl Sphere {
    pub fn sphere(center: Vec3, radius: i64, material: Material) -> (s: Sphere)
        ensures
            s == (Sphere { center, radius, material }),
    {
        Sphere { center, radius, material }
    }
}

impl Hittable for Sphere {
    open spec fn valid(&self) -> bool {
        sphere_wf(*self)
    }

    open spec fn hit_spec(&self, r: Ray, t_min: int, t_max: int) -> Option<HitRecord> {
        sphere_hit(*self, r, t_min, t_max)
    }

    /// The closest hit of `r` on this sphere strictly within `(t_min, t_max)`.
    fn hit(&self, r: &Ray, t_min: i64, t_max: i64) -> (res: Option<HitRecord>) {
        let oc = r.orig.sub(self.center);
        proof {
            crate::vec3::lemma_prod_bound(self.radius as int, self.radius as int);
        }
        let rr: i128 = (self.radius as i128) * (self.radius as i128);
        let a = div_trunc(dot_wide(r.dir, r.dir), 4);
        let b = div_trunc(dot_wide(oc, r.dir), 4);
        let c = div_trunc(dot_wide(oc, oc) - rr, 4);
        proof {
            assert(-0x4000_0000_0000_0000 * 4 <= dot_raw(oc, oc) - rr <= 0x4000_0000_0000_0000 * 4);
            assert(-0x4000_0000_0000_0000 <= a <= 0x4000_0000_0000_0000);
            assert(-0x4000_0000_0000_0000 <= b <= 0x4000_0000_0000_0000);
            assert(-0x4000_0000_0000_0000 <= c <= 0x4000_0000_0000_0000);
            assert(-0x1000_0000_0000_0000_0000_0000_0000_0000 <= b * b <= 0x1000_0000_0000_0000_0000_0000_0000_0000)
                by (nonlinear_arith)
                requires
                    -0x4000_0000_0000_0000 <= b <= 0x4000_0000_0000_0000,
            ;
            assert(-0x1000_0000_0000_0000_0000_0000_0000_0000 <= a * c <= 0x1000_0000_0000_0000_0000_0000_0000_0000)
                by (nonlinear_arith)
                requires
                    -0x4000_0000_0000_0000 <= a <= 0x4000_0000_0000_0000,
                    -0x4000_0000_0000_0000 <= c <= 0x4000_0000_0000_0000,
            ;
        }
        let disc: i128 = b * b - a * c;
        if self.radius == 0 || a <= 0 || disc <= 0 {
            return None;
        }
        let sq = isqrt(disc);
        proof {
            crate::fixed::lemma_isqrt_bounds(disc as int);
            assert(sq <= 0x8000_0000_0000_0000) by (nonlinear_arith)
                requires
                    sq * sq <= disc,
                    disc <= 0x2000_0000_0000_0000_0000_0000_0000_0000,
                    sq >= 0,
            ;
        }
        let lo = div_trunc((-b - sq) * (ONE as i128), a);
        let hi = div_trunc((-b + sq) * (ONE as i128), a);
        let t: i64 = if (t_min as i128) < lo && lo < (t_max as i128) {
            lo as i64
        } else if (t_min as i128) < hi && hi < (t_max as i128) {
            hi as i64
        } else {
            return None;
        };
        let p = r.point_at_parameter(t);
        let normal = p.sub(self.center).div(self.radius);
        Some(HitRecord { t, p, normal, material: self.material })
    }
}

/// Rounding toward zero keeps the order of numerators.
pub proof fn lemma_trunc_div_monotone(x: int, y: int, d: int)
    requires
        x <= y,
        d > 0,
    ensures
        trunc_div(x, d) <= trunc_div(y, d),
{
    if x >= 0 {
        vstd::arithmetic::div_mod::lemma_div_is_ordered(x, y, d);
    } else if y < 0 {
        vstd::arithmetic::div_mod::lemma_div_is_ordered(-y, -x, d);
    } else {
        vstd::arithmetic::div_mod::lemma_div_is_ordered(0, y, d);
        vstd::arithmetic::div_mod::lemma_div_is_ordered(0, -x, d);
    }
}

/// The smaller root never exceeds the larger one.
pub proof fn lemma_roots_ordered(s: Sphere, r: Ray)
    requires
        crosses(s, r),
    ensures
        root_lo(s, r) <= root_hi(s, r),
{
    let (a, b, c) = coefficients(s, r);
    let q = isqrt_spec(discriminant(s, r));
    crate::fixed::lemma_isqrt_bounds(discriminant(s, r));
    assert((-b - q) * ONE <= (-b + q) * ONE) by (nonlinear_arith)
        requires
            q >= 0,
    ;
    lemma_trunc_div_monotone((-b - q) * ONE, (-b + q) * ONE, a);
}

/// Narrowing the interval to `(t_min, bound)` keeps a hit below `bound` and
/// drops one at or above it; a hit within the narrower interval is the hit
/// within the wider one.
pub proof fn lemma_sphere_t_narrow(s: Sphere, r: Ray, t_min: int, bound: int, t_max: int)
    requires
        bound <= t_max,
    ensures
        sphere_t(s, r, t_min, bound) is Some ==> sphere_t(s, r, t_min, t_max) == sphere_t(s, r, t_min, bound),
        sphere_t(s, r, t_min, t_max) is Some ==> (sphere_t(s, r, t_min, bound) is Some
            <==> sphere_t(s, r, t_min, t_max).unwrap() < bound),
        sphere_t(s, r, t_min, t_max) is Some && sphere_t(s, r, t_min, t_max).unwrap() < bound
            ==> sphere_t(s, r, t_min, bound) == sphere_t(s, r, t_min, t_max),
        sphere_t(s, r, t_min, t_max) is Some ==> t_min < sphere_t(s, r, t_min, t_max).unwrap() < t_max,
{
    if crosses(s, r) {
        lemma_roots_ordered(s, r);
    }
}

/// Of two roots within the interval the hit is the nearer one: where the ray
/// crosses the sphere and the smaller root lies in `(t_min, t_max)`, the hit is
/// reported there, and the other root is no nearer.
pub proof fn lemma_hit_at_nearer_root(s: Sphere, r: Ray, t_min: int, t_max: int)
    requires
        crosses(s, r),
        t_min < root_lo(s, r) < t_max,
    ensures
        sphere_hit(s, r, t_min, t_max) == Some(record_at(s, r, root_lo(s, r))),
        root_lo(s, r) <= root_hi(s, r),
{
    lemma_roots_ordered(s, r);
}

/// Dividing by a positive radius keeps each component's sign.
proof fn lemma_div_keeps_sign(q: int, radius: int)
    requires
        in_range(q),
        radius > 0,
    ensures
        q * div_spec(q, radius) >= 0,
        q * ONE >= radius ==> div_spec(q, radius) > 0,
        q * ONE <= -radius ==> div_spec(q, radius) < 0,
{
    if q >= 0 {
        vstd::arithmetic::div_mod::lemma_div_is_ordered(0, q * ONE, radius);
        if q * ONE >= radius {
            vstd::arithmetic::div_mod::lemma_div_is_ordered(radius, q * ONE, radius);
            vstd::arithmetic::div_mod::lemma_div_multiples_vanish(1, radius);
        }
    } else {
        assert(-(q * ONE) == (-q) * ONE);
        vstd::arithmetic::div_mod::lemma_div_is_ordered(0, (-q) * ONE, radius);
        if q * ONE <= -radius {
            vstd::arithmetic::div_mod::lemma_div_is_ordered(radius, (-q) * ONE, radius);
            vstd::arithmetic::div_mod::lemma_div_multiples_vanish(1, radius);
        }
    }
    let d = div_spec(q, radius);
    assert(q * d >= 0) by (nonlinear_arith)
        requires
            (q >= 0 && d >= 0) || (q < 0 && d <= 0),
    ;
}

/// The reported normal of a sphere with positive radius points outward: it
/// never points against `p - center`, and does point along it once the hit
/// point is a raw unit of radius away from the center in some coordinate.
pub proof fn lemma_normal_outward(s: Sphere, r: Ray, t_min: int, t_max: int)
    requires
        sphere_wf(s),
        ray_wf(r),
        s.radius > 0,
        sphere_hit(s, r, t_min, t_max) is Some,
    ensures
        ({
            let h = sphere_hit(s, r, t_min, t_max).unwrap();
            let q = vsub(h.p, s.center);
            &&& dot_raw(h.normal, q) >= 0
            &&& (q.x * ONE >= s.radius || q.x * ONE <= -s.radius || q.y * ONE >= s.radius || q.y * ONE <= -s.radius
                || q.z * ONE >= s.radius || q.z * ONE <= -s.radius) ==> dot_raw(h.normal, q) > 0
        }),
{
    let h = sphere_hit(s, r, t_min, t_max).unwrap();
    let q = vsub(h.p, s.center);
    let n = h.normal;
    lemma_div_keeps_sign(q.x as int, s.radius as int);
    lemma_div_keeps_sign(q.y as int, s.radius as int);
    lemma_div_keeps_sign(q.z as int, s.radius as int);
    assert(n.x * q.x == q.x * n.x && n.y * q.y == q.y * n.y && n.z * q.z == q.z * n.z);
    assert((n.x > 0 && q.x > 0) || (n.x < 0 && q.x < 0) ==> n.x * q.x > 0) by (nonlinear_arith);
    assert((n.y > 0 && q.y > 0) || (n.y < 0 && q.y < 0) ==> n.y * q.y > 0) by (nonlinear_arith);
    assert((n.z > 0 && q.z > 0) || (n.z < 0 && q.z < 0) ==> n.z * q.z > 0) by (nonlinear_arith);
}

} // verus!
