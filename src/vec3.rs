//! Three-component fixed-point vectors, used as points, directions and colours.
use vstd::prelude::*;
use crate::fixed::{
    add_spec, clamp, clamp_wide, div_spec, div_trunc, fx_add, fx_div, fx_mul, fx_sub, in_range, isqrt,
    isqrt_spec, mul_spec, sub_spec, trunc_div, LIMIT, ONE,
};

verus! {

/// A point, a direction, or an RGB colour (`r = x`, `g = y`, `b = z`).
#[derive(Clone, Copy, Debug, PartialEq, Eq, Structural)]
pub struct Vec3 {
    pub x: i64,
    pub y: i64,
    pub z: i64,
}

/// Every component within the raw range.
pub open spec fn wf(v: Vec3) -> bool {
    in_range(v.x as int) && in_range(v.y as int) && in_range(v.z as int)
}

pub open spec fn vec3(x: int, y: int, z: int) -> Vec3 {
    Vec3 { x: x as i64, y: y as i64, z: z as i64 }
}

pub open spec fn vadd(a: Vec3, b: Vec3) -> Vec3 {
    vec3(add_spec(a.x as int, b.x as int), add_spec(a.y as int, b.y as int), add_spec(a.z as int, b.z as int))
}

pub open spec fn vsub(a: Vec3, b: Vec3) -> Vec3 {
    vec3(sub_spec(a.x as int, b.x as int), sub_spec(a.y as int, b.y as int), sub_spec(a.z as int, b.z as int))
}

pub open spec fn vneg(a: Vec3) -> Vec3 {
    vec3(-a.x, -a.y, -a.z)
}

/// Component-wise product, as colours are attenuated.
pub open spec fn vmul(a: Vec3, b: Vec3) -> Vec3 {
    vec3(mul_spec(a.x as int, b.x as int), mul_spec(a.y as int, b.y as int), mul_spec(a.z as int, b.z as int))
}

/// Every component multiplied by the scalar `k`.
pub open spec fn vscale(a: Vec3, k: int) -> Vec3 {
    vec3(mul_spec(a.x as int, k), mul_spec(a.y as int, k), mul_spec(a.z as int, k))
}

/// Every component divided by the scalar `k` (zero where `k == 0`).
pub open spec fn vdiv(a: Vec3, k: int) -> Vec3 {
    vec3(div_spec(a.x as int, k), div_spec(a.y as int, k), div_spec(a.z as int, k))
}

/// The exact dot product of the raw components, at scale `ONE * ONE`.
pub open spec fn dot_raw(a: Vec3, b: Vec3) -> int {
    a.x * b.x + a.y * b.y + a.z * b.z
}

pub open spec fn dot_spec(a: Vec3, b: Vec3) -> int {
    clamp(trunc_div(dot_raw(a, b), ONE as int))
}

pub open spec fn cross_spec(a: Vec3, b: Vec3) -> Vec3 {
    vec3(
        clamp(trunc_div(a.y * b.z - a.z * b.y, ONE as int)),
        clamp(trunc_div(a.z * b.x - a.x * b.z, ONE as int)),
        clamp(trunc_div(a.x * b.y - a.y * b.x, ONE as int)),
    )
}

/// Euclidean length: the square root of the exact sum of squares.
pub open spec fn length_spec(a: Vec3) -> int {
    clamp(isqrt_spec(dot_raw(a, a)))
}

/// `a` divided by its length; the zero vector stays zero.
pub open spec fn unit_spec(a: Vec3) -> Vec3 {
    vdiv(a, length_spec(a))
}

pub proof fn lemma_prod_bound(a: int, b: int)
    requires
        in_range(a),
        in_range(b),
    ensures
        -0x4000_0000_0000_0000 <= a * b <= 0x4000_0000_0000_0000,
{
    assert(-0x4000_0000_0000_0000 <= a * b <= 0x4000_0000_0000_0000) by (nonlinear_arith)
        requires
            -0x8000_0000 <= a <= 0x8000_0000,
            -0x8000_0000 <= b <= 0x8000_0000,
    ;
}

/// The exact dot product of two vectors in range, as a wide integer.
pub(crate) fn dot_wide(a: Vec3, b: Vec3) -> (r: i128)
    requires
        wf(a),
        wf(b),
    ensures
        r == dot_raw(a, b),
        -0x4000_0000_0000_0000 * 3 <= r <= 0x4000_0000_0000_0000 * 3,
{
    proof {
        lemma_prod_bound(a.x as int, b.x as int);
        lemma_prod_bound(a.y as int, b.y as int);
        lemma_prod_bound(a.z as int, b.z as int);
    }
    (a.x as i128) * (b.x as i128) + (a.y as i128) * (b.y as i128) + (a.z as i128) * (b.z as i128)
}

/// One component of a cross product: `p * q - r * s`, scaled back.
fn cross_term(p: i64, q: i64, r: i64, s: i64) -> (out: i64)
    requires
        in_range(p as int),
        in_range(q as int),
        in_range(r as int),
        in_range(s as int),
    ensures
        out == clamp(trunc_div(p * q - r * s, ONE as int)),
{
    proof {
        lemma_prod_bound(p as int, q as int);
        lemma_prod_bound(r as int, s as int);
    }
    clamp_wide(div_trunc((p as i128) * (q as i128) - (r as i128) * (s as i128), ONE as i128))
}

impl Vec3 {
    /// A vector from raw components, each limited to the raw range.
    pub fn new(x: i64, y: i64, z: i64) -> (r: Vec3)
        ensures
            r == vec3(clamp(x as int), clamp(y as int), clamp(z as int)),
            wf(r),
    {
        Vec3 { x: clamp_wide(x as i128), y: clamp_wide(y as i128), z: clamp_wide(z as i128) }
    }

    /// The zero vector (black).
    pub fn zero() -> (r: Vec3)
        ensures
            r == vec3(0, 0, 0),
            wf(r),
    {
        Vec3 { x: 0, y: 0, z: 0 }
    }

    pub fn r(self) -> (c: i64)
        ensures
            c == self.x,
    {
        self.x
    }

    pub fn g(self) -> (c: i64)
        ensures
            c == self.y,
    {
        self.y
    }

    pub fn b(self) -> (c: i64)
        ensures
            c == self.z,
    {
        self.z
    }

    pub fn add(self, o: Vec3) -> (r: Vec3)
        requires
            wf(self),
            wf(o),
        ensures
            r == vadd(self, o),
            wf(r),
    {
        Vec3 { x: fx_add(self.x, o.x), y: fx_add(self.y, o.y), z: fx_add(self.z, o.z) }
    }

    pub fn sub(self, o: Vec3) -> (r: Vec3)
        requires
            wf(self),
            wf(o),
        ensures
            r == vsub(self, o),
            wf(r),
    {
        Vec3 { x: fx_sub(self.x, o.x), y: fx_sub(self.y, o.y), z: fx_sub(self.z, o.z) }
    }

    pub fn neg(self) -> (r: Vec3)
        requires
            wf(self),
        ensures
            r == vneg(self),
            wf(r),
    {
        Vec3 { x: -self.x, y: -self.y, z: -self.z }
    }

    /// Component-wise product.
    pub fn mul(self, o: Vec3) -> (r: Vec3)
        requires
            wf(self),
            wf(o),
        ensures
            r == vmul(self, o),
            wf(r),
    {
        Vec3 { x: fx_mul(self.x, o.x), y: fx_mul(self.y, o.y), z: fx_mul(self.z, o.z) }
    }

    pub fn scale(self, k: i64) -> (r: Vec3)
        requires
            wf(self),
            in_range(k as int),
        ensures
            r == vscale(self, k as int),
            wf(r),
    {
        Vec3 { x: fx_mul(self.x, k), y: fx_mul(self.y, k), z: fx_mul(self.z, k) }
    }

    pub fn div(self, k: i64) -> (r: Vec3)
        requires
            wf(self),
        ensures
            r == vdiv(self, k as int),
            wf(r),
    {
        Vec3 { x: fx_div(self.x, k), y: fx_div(self.y, k), z: fx_div(self.z, k) }
    }

    pub fn dot(a: &Vec3, b: &Vec3) -> (r: i64)
        requires
            wf(*a),
            wf(*b),
        ensures
            r == dot_spec(*a, *b),
            in_range(r as int),
    {
        clamp_wide(div_trunc(dot_wide(*a, *b), ONE as i128))
    }

    pub fn cross(a: &Vec3, b: &Vec3) -> (r: Vec3)
        requires
            wf(*a),
            wf(*b),
        ensures
            r == cross_spec(*a, *b),
            wf(r),
    {
        Vec3 {
            x: cross_term(a.y, b.z, a.z, b.y),
            y: cross_term(a.z, b.x, a.x, b.z),
            z: cross_term(a.x, b.y, a.y, b.x),
        }
    }

    pub fn squared_length(self) -> (r: i64)
        requires
            wf(self),
        ensures
            r == dot_spec(self, self),
            in_range(r as int),
    {
        Vec3::dot(&self, &self)
    }

    pub fn length(self) -> (r: i64)
        requires
            wf(self),
        ensures
            r == length_spec(self),
            0 <= r <= LIMIT,
    {
        let s = dot_wide(self, self);
        proof {
            assert(0 <= dot_raw(self, self)) by (nonlinear_arith)
                requires
                    dot_raw(self, self) == self.x * self.x + self.y * self.y + self.z * self.z,
            ;
        }
        clamp_wide(isqrt(s))
    }

    pub fn unit_vector(v: &Vec3) -> (r: Vec3)
        requires
            wf(*v),
        ensures
            r == unit_spec(*v),
            wf(r),
    {
        let l = v.length();
        v.div(l)
    }
}

} // verus!
