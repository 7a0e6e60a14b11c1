//! A scene: a list of spheres and the closest hit among them.
use vstd::prelude::*;
use crate::fixed::in_range;
use crate::hittable::{hit_wf, HitRecord, Hittable};
use crate::ray::{ray_wf, Ray};
use crate::sphere::{lemma_sphere_t_narrow, sphere_hit, sphere_wf, Sphere};

verus! {

/// The scene's spheres; their order does not change what a ray hits first.
pub struct HittableList {
    pub list: Vec<Sphere>,
}

pub open spec fn scene_wf(objs: Seq<Sphere>) -> bool {
    forall|i: int| 0 <= i < objs.len() ==> sphere_wf(#[trigger] objs[i])
}

/// The upper bound that the scan tests the next member against.
pub open spec fn bound_of(best: Option<HitRecord>, t_max: int) -> int {
    match best {
        Some(h) => h.t as int,
        None => t_max,
    }
}

/// The linear scan: each member is tested against `(t_min, closest so far)`
/// and a hit there replaces the best one.
pub open spec fn scan_hit(objs: Seq<Sphere>, r: Ray, t_min: int, t_max: int) -> Option<HitRecord>
    decreases objs.len(),
{
    if objs.len() == 0 {
        None
    } else {
        let prev = scan_hit(objs.drop_last(), r, t_min, t_max);
        match sphere_hit(objs.last(), r, t_min, bound_of(prev, t_max)) {
            Some(h) => Some(h),
            None => prev,
        }
    }
}

impl HittableList {
    pub fn new(list: Vec<Sphere>) -> (w: HittableList)
        ensures
            w.list@ == list@,
    {
        HittableList { list }
    }
}

impl Hittable for HittableList {
    open spec fn valid(&self) -> bool {
        scene_wf(self.list@)
    }

    open spec fn hit_spec(&self, r: Ray, t_min: int, t_max: int) -> Option<HitRecord> {
        scan_hit(self.list@, r, t_min, t_max)
    }

    /// The closest hit of `r` among all members strictly within `(t_min, t_max)`.
    fn hit(&self, r: &Ray, t_min: i64, t_max: i64) -> (res: Option<HitRecord>) {
        let mut closest_so_far = t_max;
        let mut temp_rec: Option<HitRecord> = None;
        let mut i: usize = 0;
        while i < self.list.len()
            invariant
                scene_wf(self.list@),
                ray_wf(*r),
                in_range(t_min as int),
                in_range(t_max as int),
                i <= self.list@.len(),
                temp_rec == scan_hit(self.list@.take(i as int), *r, t_min as int, t_max as int),
                closest_so_far == bound_of(temp_rec, t_max as int),
                temp_rec.is_some() ==> hit_wf(temp_rec.unwrap()) && t_min < temp_rec.unwrap().t < t_max,
            decreases self.list@.len() - i,
        {
            proof {
                let next = self.list@.take(i as int + 1);
                assert(next.drop_last() =~= self.list@.take(i as int));
                assert(next.last() == self.list@[i as int]);
            }
            if let Some(rec) = self.list[i].hit(r, t_min, closest_so_far) {
                closest_so_far = rec.t;
                temp_rec = Some(rec);
            }
            i = i + 1;
        }
        proof {
            assert(self.list@.take(i as int) =~= self.list@);
        }
        temp_rec
    }
}

/// The scan finds the closest member: it finds a hit exactly when some member
/// is hit within `(t_min, t_max)`, the hit it reports is that of a member, and
/// no member is hit closer.
pub proof fn lemma_scan_closest(objs: Seq<Sphere>, r: Ray, t_min: int, t_max: int)
    requires
        in_range(t_min),
        in_range(t_max),
    ensures
        scan_hit(objs, r, t_min, t_max) is None <==> forall|i: int|
            0 <= i < objs.len() ==> #[trigger] sphere_hit(objs[i], r, t_min, t_max) is None,
        scan_hit(objs, r, t_min, t_max) is Some ==> exists|i: int|
            0 <= i < objs.len() && #[trigger] sphere_hit(objs[i], r, t_min, t_max) == scan_hit(
                objs,
                r,
                t_min,
                t_max,
            ),
        scan_hit(objs, r, t_min, t_max) is Some ==> forall|i: int|
            0 <= i < objs.len() && (#[trigger] sphere_hit(objs[i], r, t_min, t_max)) is Some
                ==> scan_hit(objs, r, t_min, t_max).unwrap().t <= sphere_hit(objs[i], r, t_min, t_max).unwrap().t,
        scan_hit(objs, r, t_min, t_max) is Some ==> t_min < scan_hit(objs, r, t_min, t_max).unwrap().t < t_max,
    decreases objs.len(),
{
    if objs.len() > 0 {
        let pre = objs.drop_last();
        let last = objs.last();
        lemma_scan_closest(pre, r, t_min, t_max);
        let prev = scan_hit(pre, r, t_min, t_max);
        let bound = bound_of(prev, t_max);
        lemma_sphere_t_narrow(last, r, t_min, bound, t_max);
        assert forall|i: int| 0 <= i < pre.len() implies #[trigger] objs[i] == pre[i] by {}
        assert(objs[objs.len() - 1] == last);
        let n = objs.len() - 1;
        if let Some(hp) = prev {
            let j = choose|j: int| 0 <= j < pre.len() && #[trigger] sphere_hit(pre[j], r, t_min, t_max) == prev;
            lemma_sphere_t_narrow(pre[j], r, t_min, t_max, t_max);
        }
        match sphere_hit(last, r, t_min, bound) {
            Some(h) => {
                assert(sphere_hit(objs[n], r, t_min, t_max) == Some(h));
                assert forall|i: int|
                    0 <= i < objs.len() && (#[trigger] sphere_hit(objs[i], r, t_min, t_max)) is Some implies h.t
                    <= sphere_hit(objs[i], r, t_min, t_max).unwrap().t by {
                    if i < n {
                        assert(sphere_hit(pre[i], r, t_min, t_max) is Some);
                    }
                }
            },
            None => {
                if prev is None {
                    assert forall|i: int| 0 <= i < objs.len() implies #[trigger] sphere_hit(
                        objs[i],
                        r,
                        t_min,
                        t_max,
                    ) is None by {
                        if i < n {
                            assert(sphere_hit(pre[i], r, t_min, t_max) is None);
                        }
                    }
                } else {
                    let j = choose|j: int| 0 <= j < pre.len() && #[trigger] sphere_hit(pre[j], r, t_min, t_max) == prev;
                    assert(sphere_hit(objs[j], r, t_min, t_max) == prev);
                    assert forall|i: int|
                        0 <= i < objs.len() && (#[trigger] sphere_hit(objs[i], r, t_min, t_max)) is Some implies prev.unwrap().t
                        <= sphere_hit(objs[i], r, t_min, t_max).unwrap().t by {
                        if i < n {
                            assert(sphere_hit(pre[i], r, t_min, t_max) is Some);
                        }
                    }
                }
            },
        }
    }
}

/// No two different members are hit at the same parameter.
pub open spec fn no_ties(objs: Seq<Sphere>, r: Ray, t_min: int, t_max: int) -> bool {
    forall|x: Sphere, y: Sphere|
        #![trigger objs.contains(x), objs.contains(y)]
        objs.contains(x) && objs.contains(y) && sphere_hit(x, r, t_min, t_max) is Some && sphere_hit(y, r, t_min, t_max) is Some
            && sphere_hit(x, r, t_min, t_max).unwrap().t == sphere_hit(y, r, t_min, t_max).unwrap().t ==> x == y
}

/// The closest hit does not depend on the order of the scene's members: two
/// lists holding the same spheres, in any order, both miss the ray or both
/// hit it at the same parameter; where no two members tie, the whole reported
/// record is the same.
pub proof fn lemma_hit_order_independent(a: Seq<Sphere>, b: Seq<Sphere>, r: Ray, t_min: int, t_max: int)
    requires
        a.to_multiset() == b.to_multiset(),
        in_range(t_min),
        in_range(t_max),
    ensures
        scan_hit(a, r, t_min, t_max) is Some <==> scan_hit(b, r, t_min, t_max) is Some,
        scan_hit(a, r, t_min, t_max) is Some ==> scan_hit(a, r, t_min, t_max).unwrap().t == scan_hit(
            b,
            r,
            t_min,
            t_max,
        ).unwrap().t,
        no_ties(a, r, t_min, t_max) ==> scan_hit(a, r, t_min, t_max) == scan_hit(b, r, t_min, t_max),
{
    broadcast use vstd::seq_lib::group_to_multiset_ensures;

    lemma_scan_closest(a, r, t_min, t_max);
    lemma_scan_closest(b, r, t_min, t_max);
    assert forall|x: Sphere| a.contains(x) <==> b.contains(x) by {
        vstd::seq_lib::to_multiset_contains(a, x);
        vstd::seq_lib::to_multiset_contains(b, x);
    }
    let ha = scan_hit(a, r, t_min, t_max);
    let hb = scan_hit(b, r, t_min, t_max);
    if ha is Some {
        let i = choose|i: int| 0 <= i < a.len() && #[trigger] sphere_hit(a[i], r, t_min, t_max) == ha;
        assert(a.contains(a[i]));
        let j = choose|j: int| 0 <= j < b.len() && b[j] == a[i];
        assert(sphere_hit(b[j], r, t_min, t_max) is Some);
        if no_ties(a, r, t_min, t_max) {
            let j2 = choose|j2: int| 0 <= j2 < b.len() && #[trigger] sphere_hit(b[j2], r, t_min, t_max) == hb;
            assert(b.contains(b[j2]));
            assert(a.contains(b[j2]));
            assert(a.contains(a[i]));
            assert(sphere_hit(a[i], r, t_min, t_max).unwrap().t <= sphere_hit(b[j2], r, t_min, t_max).unwrap().t);
            let i2 = choose|i2: int| 0 <= i2 < a.len() && a[i2] == b[j2];
            assert(sphere_hit(a[i2], r, t_min, t_max) is Some);
            assert(b[j2] == a[i]);
        }
    }
    if hb is Some {
        let j = choose|j: int| 0 <= j < b.len() && #[trigger] sphere_hit(b[j], r, t_min, t_max) == hb;
        assert(b.contains(b[j]));
        let i = choose|i: int| 0 <= i < a.len() && a[i] == b[j];
        assert(sphere_hit(a[i], r, t_min, t_max) is Some);
    }
}

} // verus!
