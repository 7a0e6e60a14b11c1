//! Rays: an origin and a direction.
use vstd::prelude::*;
use crate::fixed::in_range;
use crate::vec3::{vadd, vscale, wf, Vec3};

verus! {

#[derive(Clone, Copy, Debug, PartialEq, Eq, Structural)]
pub struct Ray {
    pub orig: Vec3,
    pub dir: Vec3,
}

pub open spec fn ray_wf(r: Ray) -> bool {
    wf(r.orig) && wf(r.dir)
}

/// The point `origin + direction * t`.
pub open spec fn point_at(r: Ray, t: int) -> Vec3 {
    vadd(r.orig, vscale(r.dir, t))
}

impl Ray {
    pub fn new(a: Vec3, b: Vec3) -> (r: Ray)
        ensures
            r.orig == a,
            r.dir == b,
    {
        Ray { orig: a, dir: b }
    }

    pub fn origin(self) -> (r: Vec3)
        ensures
            r == self.orig,
    {
        self.orig
    }

    pub fn direction(self) -> (r: Vec3)
        ensures
            r == self.dir,
    {
        self.dir
    }

    pub fn point_at_parameter(self, t: i64) -> (r: Vec3)
        requires
            ray_wf(self),
            in_range(t as int),
        ensures
            r == point_at(self, t as int),
            wf(r),
    {
        self.orig.add(self.dir.scale(t))
    }
}

} // verus!
