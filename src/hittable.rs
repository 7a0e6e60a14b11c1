//! What an intersection test reports.
use vstd::prelude::*;
use crate::material::{material_wf, Material};
use crate::fixed::in_range;
use crate::ray::{ray_wf, Ray};
use crate::vec3::{wf, Vec3};

verus! {

/// A ray's hit on a surface: the ray parameter, the point, the outward
/// normal and the surface's material.
#[derive(Clone, Copy, Debug, PartialEq, Eq, Structural)]
pub struct HitRecord {
    pub t: i64,
    pub p: Vec3,
    pub normal: Vec3,
    pub material: Material,
}

pub open spec fn hit_wf(h: HitRecord) -> bool {
    wf(h.p) && wf(h.normal) && material_wf(h.material)
}

/// A surface that reports where a ray meets it.
pub trait Hittable {
    /// The values this surface can be tested with.
    spec fn valid(&self) -> bool;

    /// The hit of `r` strictly within `(t_min, t_max)` that `hit` reports.
    spec fn hit_spec(&self, r: Ray, t_min: int, t_max: int) -> Option<HitRecord>;

    fn hit(&self, r: &Ray, t_min: i64, t_max: i64) -> (res: Option<HitRecord>)
        requires
            self.valid(),
            ray_wf(*r),
            in_range(t_min as int),
            in_range(t_max as int),
        ensures
            res == self.hit_spec(*r, t_min as int, t_max as int),
            res.is_some() ==> hit_wf(res.unwrap()) && t_min < res.unwrap().t < t_max,
    ;
}

} // verus!
