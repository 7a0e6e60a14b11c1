//! A thin-lens camera: screen coordinates to rays, with depth of field.
use vstd::prelude::*;
use rand::rngs::StdRng;
use crate::fixed::{clamp, fx_add, fx_mul, in_range, mul_spec, trunc_div};
use crate::random::{in_unit_disk, random_in_unit_disk};
use crate::ray::{ray_wf, Ray};
use crate::vec3::{cross_spec, unit_spec, vadd, vscale, vsub, wf, Vec3};

verus! {

#[derive(Clone, Copy, Debug, PartialEq, Eq, Structural)]
pub struct Camera {
    pub origin: Vec3,
    pub lower_left_corner: Vec3,
    pub horizontal: Vec3,
    pub vertical: Vec3,
    pub lens_radius: i64,
    pub u: Vec3,
    pub v: Vec3,
}

pub open spec fn camera_wf(c: Camera) -> bool {
    wf(c.origin) && wf(c.lower_left_corner) && wf(c.horizontal) && wf(c.vertical) && in_range(
        c.lens_radius as int,
    ) && wf(c.u) && wf(c.v)
}

/// The camera for an eye at `look_from` looking at `look_at` with `vup` up,
/// where `half_height` is the tangent of half the vertical field of view.
pub open spec fn camera_spec(
    look_from: Vec3,
    look_at: Vec3,
    vup: Vec3,
    half_height: int,
    aspect: int,
    aperture: int,
    focus_dist: int,
) -> Camera {
    let half_width = mul_spec(aspect, half_height);
    let w = unit_spec(vsub(look_from, look_at));
    let u = unit_spec(cross_spec(vup, w));
    let v = cross_spec(w, u);
    Camera {
        origin: look_from,
        lower_left_corner: vsub(
            vsub(vsub(look_from, vscale(u, mul_spec(half_width, focus_dist))), vscale(v, mul_spec(half_height, focus_dist))),
            vscale(w, focus_dist),
        ),
        horizontal: vscale(u, mul_spec(clamp(2 * half_width), focus_dist)),
        vertical: vscale(v, mul_spec(clamp(2 * half_height), focus_dist)),
        lens_radius: trunc_div(aperture, 2) as i64,
        u,
        v,
    }
}

/// The ray through screen point `(s, t)` whose origin is moved across the lens
/// by the point `rd` of the unit disk.
pub open spec fn ray_spec(c: Camera, s: int, t: int, rd: Vec3) -> Ray {
    let p = vscale(rd, c.lens_radius as int);
    let offset = vadd(vscale(c.u, p.x as int), vscale(c.v, p.y as int));
    Ray {
        orig: vadd(c.origin, offset),
        dir: vsub(
            vsub(vadd(vadd(c.lower_left_corner, vscale(c.horizontal, s)), vscale(c.vertical, t)), c.origin),
            offset,
        ),
    }
}

impl Camera {
    pub fn new(
        look_from: Vec3,
        look_at: Vec3,
        vup: Vec3,
        half_height: i64,
        aspect: i64,
        aperture: i64,
        focus_dist: i64,
    ) -> (c: Camera)
        requires
            wf(look_from),
            wf(look_at),
            wf(vup),
            in_range(half_height as int),
            in_range(aspect as int),
            in_range(aperture as int),
            in_range(focus_dist as int),
        ensures
            c == camera_spec(look_from, look_at, vup, half_height as int, aspect as int, aperture as int, focus_dist as int),
            camera_wf(c),
    {
        let lens_radius = aperture / 2;
        let half_width = fx_mul(aspect, half_height);
        let w = Vec3::unit_vector(&look_from.sub(look_at));
        let u = Vec3::unit_vector(&Vec3::cross(&vup, &w));
        let v = Vec3::cross(&w, &u);
        Camera {
            lower_left_corner: look_from.sub(u.scale(fx_mul(half_width, focus_dist))).sub(
                v.scale(fx_mul(half_height, focus_dist)),
            ).sub(w.scale(focus_dist)),
            horizontal: u.scale(fx_mul(fx_add(half_width, half_width), focus_dist)),
            vertical: v.scale(fx_mul(fx_add(half_height, half_height), focus_dist)),
            origin: look_from,
            lens_radius,
            u,
            v,
        }
    }

    /// The ray through `(s, t)` for a given point `rd` of the unit disk.
    pub fn get_ray_with(self, s: i64, t: i64, rd: Vec3) -> (r: Ray)
        requires
            camera_wf(self),
            in_range(s as int),
            in_range(t as int),
            wf(rd),
        ensures
            r == ray_spec(self, s as int, t as int, rd),
            ray_wf(r),
    {
        let p = rd.scale(self.lens_radius);
        let offset = self.u.scale(p.x).add(self.v.scale(p.y));
        Ray::new(
            self.origin.add(offset),
            self.lower_left_corner.add(self.horizontal.scale(s)).add(self.vertical.scale(t)).sub(
                self.origin,
            ).sub(offset),
        )
    }

    /// The ray through `(s, t)`, its origin drawn across the lens.
    pub fn get_ray(self, s: i64, t: i64, rng: &mut StdRng) -> (r: Ray)
        requires
            camera_wf(self),
            in_range(s as int),
            in_range(t as int),
        ensures
            exists|rd: Vec3| in_unit_disk(rd) && r == #[trigger] ray_spec(self, s as int, t as int, rd),
            ray_wf(r),
    {
        let rd = random_in_unit_disk(rng);
        self.get_ray_with(s, t, rd)
    }
}

} // verus!
