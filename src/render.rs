//! The path-tracing integrator and the per-pixel sampler.
use vstd::prelude::*;
use rand::rngs::StdRng;
use crate::camera::{camera_wf, ray_spec, Camera};
use crate::fixed::{
    add_spec, fx_add, fx_mul, fx_sqrt, fx_sub, in_range, lemma_mul_one, lemma_trunc_div_range, mul_spec, sqrt_spec,
    sub_spec, trunc_div, LIMIT, ONE,
};
use crate::hittable::Hittable;
use crate::hittable::{hit_wf, HitRecord};
use crate::hittable_list::{lemma_scan_closest, scan_hit, scene_wf, HittableList};
use crate::sphere::{sphere_hit, sphere_wf, Sphere};
use crate::material::{
    attenuation_of, lemma_unit_bounded, material_wf, scatter, scatter_spec, Material,
};
use crate::random::{in_unit_disk, in_unit_sphere, random_fraction, rng_from_seed};
use crate::ray::{ray_wf, Ray};
use crate::vec3::{unit_spec, vadd, vec3, vmul, vscale, wf, Vec3};

verus! {

/// The nearest ray parameter a hit may have (about 0.001), so that a scattered
/// ray does not meet the surface it leaves.
pub const T_MIN: i64 = 65;

/// The farthest ray parameter a hit may have.
pub const T_MAX: i64 = LIMIT;

/// The number of scattering events after which a path is cut off.
pub const MAX_DEPTH: i64 = 50;

/// The sky colour at the zenith, `(0.5, 0.7, 1.0)`.
pub open spec fn sky() -> Vec3 {
    vec3(32768, 45875, 65536)
}

/// White, the colour at the horizon and the attenuation of an unscattered ray.
pub open spec fn white() -> Vec3 {
    vec3(ONE as int, ONE as int, ONE as int)
}

/// The background: white at the horizon blended into sky blue at the zenith by
/// `t = (y + 1) / 2` of the ray's unit direction.
pub open spec fn background_spec(r: Ray) -> Vec3 {
    let unit = unit_spec(r.dir);
    let t = mul_spec(ONE / 2, add_spec(unit.y as int, ONE as int));
    vadd(vscale(white(), sub_spec(ONE as int, t)), vscale(sky(), t))
}

/// What the scene shows along `r`: its closest hit past `T_MIN`.
pub open spec fn scene_hit(world: HittableList, r: Ray) -> Option<crate::hittable::HitRecord> {
    scan_hit(world.list@, r, T_MIN as int, T_MAX as int)
}

/// The background colour seen along `r`.
pub fn background(r: &Ray) -> (c: Vec3)
    requires
        ray_wf(*r),
    ensures
        c == background_spec(*r),
        wf(c),
{
    let unit = Vec3::unit_vector(&r.dir);
    let t = fx_mul(ONE / 2, fx_add(unit.y, ONE));
    let white = Vec3 { x: ONE, y: ONE, z: ONE };
    let sky = Vec3 { x: 32768, y: 45875, z: 65536 };
    white.scale(fx_sub(ONE, t)).add(sky.scale(t))
}

/// Random values for a run of scattering events: for each event a point of
/// the unit sphere and a value in `[0, 1)`.
pub open spec fn valid_draws(draws: Seq<(Vec3, int)>) -> bool {
    forall|k: int| 0 <= k < draws.len() ==> in_unit_sphere(#[trigger] draws[k].0) && 0 <= draws[k].1 < ONE
}

/// The radiance along `r`, already attenuated by `att`, after `depth`
/// scattering events, where the `k`-th further event uses `draws[k]`: on a
/// miss, `att` times the background; on a hit at or past `MAX_DEPTH`, or on
/// absorption, black; otherwise the radiance along the scattered ray with the
/// attenuation multiplied in. A path that outlasts its draws is cut off.
pub open spec fn radiance_spec(world: HittableList, r: Ray, depth: int, att: Vec3, draws: Seq<(Vec3, int)>) -> Vec3
    decreases draws.len(),
{
    match scene_hit(world, r) {
        None => vmul(att, background_spec(r)),
        Some(h) => {
            if depth >= MAX_DEPTH || draws.len() == 0 {
                vec3(0, 0, 0)
            } else {
                match scatter_spec(h.material, r, h, draws[0].0, draws[0].1) {
                    None => vec3(0, 0, 0),
                    Some((a, s)) => radiance_spec(world, s, depth + 1, vmul(att, a), draws.drop_first()),
                }
            }
        },
    }
}

/// Every channel in `[0, 1]`.
pub open spec fn unit_color(c: Vec3) -> bool {
    0 <= c.x <= ONE && 0 <= c.y <= ONE && 0 <= c.z <= ONE
}

/// A material whose albedo, if it has one, has every channel in `[0, 1]`.
pub open spec fn material_bounded(m: Material) -> bool {
    match m {
        Material::Lambertian { albedo } => unit_color(albedo),
        Material::Metal { albedo, .. } => unit_color(albedo),
        Material::Dielectric { .. } => true,
    }
}

/// Every member's material reflects no more light than it receives.
pub open spec fn albedos_bounded(objs: Seq<Sphere>) -> bool {
    forall|i: int| 0 <= i < objs.len() ==> material_bounded(#[trigger] objs[i].material)
}

/// A fixed-point product of two values in `[0, 1]` lies in `[0, 1]` and is at
/// most either factor.
pub proof fn lemma_mul_unit(a: int, b: int)
    requires
        0 <= a <= ONE,
        0 <= b <= ONE,
    ensures
        0 <= mul_spec(a, b) <= b,
        mul_spec(a, b) <= ONE,
{
    assert(0 <= a * b <= ONE * b) by (nonlinear_arith)
        requires
            0 <= a <= 65536,
            0 <= b,
    ;
    vstd::arithmetic::div_mod::lemma_div_is_ordered(a * b, ONE * b, ONE as int);
    vstd::arithmetic::div_mod::lemma_div_is_ordered(0, a * b, ONE as int);
    vstd::arithmetic::div_mod::lemma_div_multiples_vanish(b, ONE as int);
}

pub proof fn lemma_vmul_unit(a: Vec3, b: Vec3)
    requires
        unit_color(a),
        unit_color(b),
    ensures
        unit_color(vmul(a, b)),
{
    lemma_mul_unit(a.x as int, b.x as int);
    lemma_mul_unit(a.y as int, b.y as int);
    lemma_mul_unit(a.z as int, b.z as int);
}

/// The background lies between white and sky blue.
pub proof fn lemma_background_unit(r: Ray)
    requires
        ray_wf(r),
    ensures
        unit_color(background_spec(r)),
{
    lemma_unit_bounded(r.dir);
    let unit = unit_spec(r.dir);
    let y = add_spec(unit.y as int, ONE as int);
    assert(0 <= y <= 2 * ONE);
    let t = mul_spec(ONE / 2, y);
    assert(0 <= (ONE / 2) * y <= ONE * ONE) by (nonlinear_arith)
        requires
            0 <= y <= 131072,
    ;
    vstd::arithmetic::div_mod::lemma_div_is_ordered((ONE / 2) * y, ONE * ONE, ONE as int);
    vstd::arithmetic::div_mod::lemma_div_is_ordered(0, (ONE / 2) * y, ONE as int);
    vstd::arithmetic::div_mod::lemma_div_multiples_vanish(ONE as int, ONE as int);
    assert(0 <= t <= ONE);
    let w = sub_spec(ONE as int, t);
    lemma_mul_one(w);
    lemma_mul_unit(32768, t);
    lemma_mul_unit(45875, t);
    lemma_mul_one(t);
}

/// A scattered ray is well formed and carries the material's attenuation.
pub proof fn lemma_scatter_spec_wf(m: Material, r: Ray, h: HitRecord, s: Vec3, coin: int)
    requires
        material_wf(m),
        ray_wf(r),
        hit_wf(h),
        wf(s),
        scatter_spec(m, r, h, s, coin) is Some,
    ensures
        ray_wf(scatter_spec(m, r, h, s, coin).unwrap().1),
        scatter_spec(m, r, h, s, coin).unwrap().0 == attenuation_of(m),
{
}

/// With albedos in `[0, 1]`, radiance along any ray stays in `[0, 1]`.
pub proof fn lemma_radiance_unit(world: HittableList, r: Ray, depth: int, att: Vec3, draws: Seq<(Vec3, int)>)
    requires
        scene_wf(world.list@),
        albedos_bounded(world.list@),
        ray_wf(r),
        unit_color(att),
        valid_draws(draws),
    ensures
        unit_color(radiance_spec(world, r, depth, att, draws)),
    decreases draws.len(),
{
    match scene_hit(world, r) {
        None => {
            lemma_background_unit(r);
            lemma_vmul_unit(att, background_spec(r));
        },
        Some(h) => {
            if depth < MAX_DEPTH && draws.len() > 0 {
                lemma_scan_closest(world.list@, r, T_MIN as int, T_MAX as int);
                let i = choose|i: int|
                    0 <= i < world.list@.len() && #[trigger] sphere_hit(world.list@[i], r, T_MIN as int, T_MAX as int)
                        == scene_hit(world, r);
                assert(sphere_wf(world.list@[i]));
                assert(material_bounded(world.list@[i].material));
                assert(h.material == world.list@[i].material);
                assert(hit_wf(h));
                assert(in_unit_sphere(draws[0].0));
                match scatter_spec(h.material, r, h, draws[0].0, draws[0].1) {
                    None => {},
                    Some((a, s)) => {
                        lemma_scatter_spec_wf(h.material, r, h, draws[0].0, draws[0].1);
                        lemma_vmul_unit(att, a);
                        let rest = draws.drop_first();
                        assert forall|k: int| 0 <= k < rest.len() implies in_unit_sphere(#[trigger] rest[k].0)
                            && 0 <= rest[k].1 < ONE by {
                            assert(rest[k] == draws[k + 1]);
                        }
                        lemma_radiance_unit(world, s, depth + 1, vmul(att, a), rest);
                    },
                }
            }
        },
    }
}

/// A path scatters at most `MAX_DEPTH - depth` more times: the radiance
/// depends on no draw beyond that many.
pub proof fn lemma_radiance_depth_bounded(
    world: HittableList,
    r: Ray,
    depth: int,
    att: Vec3,
    draws: Seq<(Vec3, int)>,
)
    requires
        depth <= MAX_DEPTH,
        draws.len() >= MAX_DEPTH - depth,
    ensures
        radiance_spec(world, r, depth, att, draws) == radiance_spec(world, r, depth, att, draws.take(MAX_DEPTH - depth)),
    decreases draws.len(),
{
    let n = MAX_DEPTH - depth;
    let cut = draws.take(n);
    if scene_hit(world, r) is Some && depth < MAX_DEPTH {
        assert(cut[0] == draws[0]);
        let h = scene_hit(world, r).unwrap();
        match scatter_spec(h.material, r, h, draws[0].0, draws[0].1) {
            None => {},
            Some((a, s)) => {
                assert(cut.drop_first() =~= draws.drop_first().take(n - 1));
                lemma_radiance_depth_bounded(world, s, depth + 1, vmul(att, a), draws.drop_first());
            },
        }
    }
}

/// The radiance arriving along `r` after `depth` scattering events: paths
/// follow scattering until they leave the scene, are absorbed, or reach
/// `MAX_DEPTH` events. The result is `radiance_spec` for the values that were
/// drawn; a ray that misses the scene sees the background, and a hit once the
/// budget is spent gives black.
pub fn color(r: &Ray, world: &HittableList, depth: i64, rng: &mut StdRng) -> (c: Vec3)
    requires
        scene_wf(world.list@),
        ray_wf(*r),
    ensures
        wf(c),
        exists|draws: Seq<(Vec3, int)>|
            valid_draws(draws) && c == #[trigger] radiance_spec(*world, *r, depth as int, white(), draws),
        scene_hit(*world, *r) is None ==> c == background_spec(*r),
        scene_hit(*world, *r) is Some && depth >= MAX_DEPTH ==> c == vec3(0, 0, 0),
        albedos_bounded(world.list@) ==> unit_color(c),
{
    let c = color_loop(r, world, depth, rng);
    proof {
        if albedos_bounded(world.list@) {
            let dr = choose|dr: Seq<(Vec3, int)>|
                valid_draws(dr) && c == #[trigger] radiance_spec(*world, *r, depth as int, white(), dr);
            lemma_radiance_unit(*world, *r, depth as int, white(), dr);
        }
    }
    c
}

fn color_loop(r: &Ray, world: &HittableList, depth: i64, rng: &mut StdRng) -> (c: Vec3)
    requires
        scene_wf(world.list@),
        ray_wf(*r),
    ensures
        wf(c),
        exists|draws: Seq<(Vec3, int)>|
            valid_draws(draws) && c == #[trigger] radiance_spec(*world, *r, depth as int, white(), draws),
        scene_hit(*world, *r) is None ==> c == background_spec(*r),
        scene_hit(*world, *r) is Some && depth >= MAX_DEPTH ==> c == vec3(0, 0, 0),
{
    let mut ray = *r;
    let mut att = Vec3 { x: ONE, y: ONE, z: ONE };
    let mut d = depth;
    let ghost mut used: Seq<(Vec3, int)> = Seq::empty();
    loop
        invariant
            scene_wf(world.list@),
            ray_wf(ray),
            wf(att),
            depth <= d,
            d == depth ==> ray == *r && att == white(),
            d > depth ==> scene_hit(*world, *r) is Some && depth < MAX_DEPTH,
            valid_draws(used),
            forall|rest: Seq<(Vec3, int)>|
                #[trigger] radiance_spec(*world, *r, depth as int, white(), used + rest) == radiance_spec(
                    *world,
                    ray,
                    d as int,
                    att,
                    rest,
                ),
        decreases MAX_DEPTH - d,
    {
        proof {
            let e = Seq::<(Vec3, int)>::empty();
            assert(used + e =~= used);
            assert(radiance_spec(*world, *r, depth as int, white(), used + e) == radiance_spec(*world, ray, d as int, att, e));
        }
        match world.hit(&ray, T_MIN, T_MAX) {
            None => {
                let bg = background(&ray);
                proof {
                    if d == depth {
                        lemma_mul_one(bg.x as int);
                        lemma_mul_one(bg.y as int);
                        lemma_mul_one(bg.z as int);
                    }
                }
                return att.mul(bg);
            },
            Some(rec) => {
                if d >= MAX_DEPTH {
                    return Vec3 { x: 0, y: 0, z: 0 };
                }
                let mut attenuation = Vec3 { x: 0, y: 0, z: 0 };
                let mut scattered = ray;
                let ok = scatter(&rec.material, &ray, &rec, &mut attenuation, &mut scattered, rng);
                let ghost (s0, c0) = choose|s0: Vec3, c0: int|
                    in_unit_sphere(s0) && 0 <= c0 < ONE && #[trigger] scatter_spec(rec.material, ray, rec, s0, c0)
                        == (if ok {
                        Some((attenuation, scattered))
                    } else {
                        None
                    });
                let ghost x: (Vec3, int) = (s0, c0);
                proof {
                    assert(scene_hit(*world, ray) == Some(rec));
                    assert(seq![x][0] == x);
                    assert forall|k: int| 0 <= k < used.push(x).len() implies in_unit_sphere(
                        #[trigger] used.push(x)[k].0,
                    ) && 0 <= used.push(x)[k].1 < ONE by {
                        if k < used.len() {
                            assert(used.push(x)[k] == used[k]);
                        }
                    }
                    assert(valid_draws(used.push(x)));
                    assert forall|rest: Seq<(Vec3, int)>|
                        #[trigger] radiance_spec(*world, *r, depth as int, white(), used.push(x) + rest) == radiance_spec(
                            *world,
                            ray,
                            d as int,
                            att,
                            seq![x] + rest,
                        ) by {
                        assert(used.push(x) + rest =~= used + (seq![x] + rest));
                    }
                    assert forall|rest: Seq<(Vec3, int)>|
                        (#[trigger] (seq![x] + rest)).drop_first() =~= rest by {}
                }
                if ok {
                    proof {
                        used = used.push(x);
                    }
                    att = att.mul(attenuation);
                    ray = scattered;
                    d = d + 1;
                } else {
                    proof {
                        let e = Seq::<(Vec3, int)>::empty();
                        assert(used.push(x) + e =~= used.push(x));
                        assert(seq![x] + e =~= seq![x]);
                        assert(radiance_spec(*world, *r, depth as int, white(), used.push(x) + e) == vec3(0, 0, 0));
                    }
                    return Vec3 { x: 0, y: 0, z: 0 };
                }
            },
        }
    }
}

/// The largest image side that the sampler accepts.
pub const MAX_SIDE: u32 = 32768;

/// The screen coordinate `(i + jitter) / n` of pixel `i` of `n`.
pub open spec fn screen_coord(i: int, jitter: int, n: int) -> int {
    trunc_div(i * ONE + jitter, n)
}

/// The mean of `samples` accumulated colours, gamma-corrected by a square root
/// per channel.
pub open spec fn tone_map_spec(sum: Vec3, samples: int) -> Vec3 {
    vec3(
        sqrt_spec(trunc_div(sum.x as int, samples)),
        sqrt_spec(trunc_div(sum.y as int, samples)),
        sqrt_spec(trunc_div(sum.z as int, samples)),
    )
}

/// A colour that the image format can hold: every channel in `[0, LIMIT]`.
pub open spec fn displayable(c: Vec3) -> bool {
    wf(c) && 0 <= c.x && 0 <= c.y && 0 <= c.z
}

/// An 8-bit channel value: `255.99 * c`, rounded toward zero.
pub open spec fn quantize_spec(c: int) -> int {
    (c * 25599) / (100 * ONE)
}

fn screen(i: u32, jitter: i64, n: u32) -> (s: i64)
    requires
        i < n <= MAX_SIDE,
        0 <= jitter < ONE,
    ensures
        s == screen_coord(i as int, jitter as int, n as int),
        in_range(s as int),
{
    assert((i as int) * ONE <= 0x8000_0000 - ONE) by (nonlinear_arith)
        requires
            i < 32768,
    ;
    let x: i64 = (i as i64) * ONE + jitter;
    proof {
        vstd::arithmetic::div_mod::lemma_div_is_ordered(0, x as int, n as int);
        vstd::arithmetic::div_mod::lemma_div_is_ordered_by_denominator(x as int, 1, n as int);
    }
    x / (n as i64)
}

/// The averaged, gamma-corrected colour of `samples` accumulated estimates.
pub fn tone_map(sum: Vec3, samples: u32) -> (c: Vec3)
    requires
        wf(sum),
        samples > 0,
    ensures
        c == tone_map_spec(sum, samples as int),
        wf(c),
        0 <= c.x && 0 <= c.y && 0 <= c.z,
{
    let n = samples as i64;
    let x = if sum.x >= 0 { sum.x / n } else { -((-sum.x) / n) };
    let y = if sum.y >= 0 { sum.y / n } else { -((-sum.y) / n) };
    let z = if sum.z >= 0 { sum.z / n } else { -((-sum.z) / n) };
    proof {
        lemma_trunc_div_range(sum.x as int, n as int);
        lemma_trunc_div_range(sum.y as int, n as int);
        lemma_trunc_div_range(sum.z as int, n as int);
    }
    Vec3 { x: fx_sqrt(x), y: fx_sqrt(y), z: fx_sqrt(z) }
}

/// The 8-bit value of a channel in `[0, LIMIT]`.
pub fn quantize(c: i64) -> (q: u64)
    requires
        0 <= c <= LIMIT,
    ensures
        q == quantize_spec(c as int),
        c <= ONE ==> q <= 255,
{
    proof {
        lemma_quantize_byte(c as int);
    }
    assert(0 <= (c as int) * 25599 <= 0x8000_0000 * 25599) by (nonlinear_arith)
        requires
            0 <= c <= 0x8000_0000,
    ;
    let q = ((c as u64) * 25599) / (100 * (ONE as u64));
    q
}

/// A channel in `[0, 1]` quantizes to a byte value.
pub proof fn lemma_quantize_byte(c: int)
    requires
        0 <= c,
    ensures
        0 <= quantize_spec(c),
        c <= ONE ==> quantize_spec(c) <= 255,
{
    vstd::arithmetic::div_mod::lemma_div_is_ordered(0, c * 25599, 100 * ONE as int);
    if c <= ONE {
        assert(c * 25599 <= ONE * 25599) by (nonlinear_arith)
            requires
                c <= 65536,
        ;
        vstd::arithmetic::div_mod::lemma_div_is_ordered(c * 25599, ONE * 25599, 100 * ONE as int);
        vstd::arithmetic::div_mod::lemma_fundamental_div_mod_converse(ONE * 25599, 100 * ONE as int, 255, 6488064);
    }
}

/// Colours in `[0, 1]` sum to at most one per colour.
pub proof fn lemma_sum_bounded(colors: Seq<Vec3>)
    requires
        forall|k: int| 0 <= k < colors.len() ==> unit_color(#[trigger] colors[k]),
    ensures
        0 <= sum_of(colors).x <= colors.len() * ONE,
        0 <= sum_of(colors).y <= colors.len() * ONE,
        0 <= sum_of(colors).z <= colors.len() * ONE,
    decreases colors.len(),
{
    if colors.len() > 0 {
        let pre = colors.drop_last();
        assert forall|k: int| 0 <= k < pre.len() implies unit_color(#[trigger] pre[k]) by {
            assert(pre[k] == colors[k]);
        }
        lemma_sum_bounded(pre);
        assert(unit_color(colors[colors.len() - 1]));
    }
}

/// The tone-mapped mean of colours in `[0, 1]` lies in `[0, 1]`.
pub proof fn lemma_tone_map_unit(sum: Vec3, samples: int)
    requires
        samples >= 1,
        0 <= sum.x <= samples * ONE,
        0 <= sum.y <= samples * ONE,
        0 <= sum.z <= samples * ONE,
    ensures
        unit_color(tone_map_spec(sum, samples)),
{
    lemma_mean_sqrt_unit(sum.x as int, samples);
    lemma_mean_sqrt_unit(sum.y as int, samples);
    lemma_mean_sqrt_unit(sum.z as int, samples);
}

proof fn lemma_mean_sqrt_unit(x: int, samples: int)
    requires
        samples >= 1,
        0 <= x <= samples * ONE,
    ensures
        0 <= sqrt_spec(trunc_div(x, samples)) <= ONE,
{
    vstd::arithmetic::div_mod::lemma_div_is_ordered(x, samples * ONE, samples);
    vstd::arithmetic::div_mod::lemma_div_is_ordered(0, x, samples);
    vstd::arithmetic::div_mod::lemma_div_multiples_vanish(ONE as int, samples);
    assert(samples * ONE == ONE * samples);
    let a = trunc_div(x, samples);
    assert(0 <= a <= ONE);
    if a > 0 {
        crate::fixed::lemma_isqrt_bounds(a * ONE);
        let r = crate::fixed::isqrt_spec(a * ONE);
        assert(r <= ONE) by (nonlinear_arith)
            requires
                r * r <= a * 65536,
                a <= 65536,
                r >= 0,
        ;
    }
}

/// The saturating sum of `colors`.
pub open spec fn sum_of(colors: Seq<Vec3>) -> Vec3
    decreases colors.len(),
{
    if colors.len() == 0 {
        vec3(0, 0, 0)
    } else {
        vadd(sum_of(colors.drop_last()), colors.last())
    }
}

/// A camera ray through pixel `(i, j)` of a `width` by `height` image: through
/// the pixel's corner moved by jitters in `[0, 1)`, from a point of the lens.
pub open spec fn is_pixel_ray(camera: Camera, i: int, j: int, width: int, height: int, r: Ray) -> bool {
    exists|ju: int, jv: int, rd: Vec3|
        0 <= ju < ONE && 0 <= jv < ONE && in_unit_disk(rd) && r == #[trigger] ray_spec(
            camera,
            screen_coord(i, ju, width),
            screen_coord(j, jv, height),
            rd,
        )
}

/// `c` is pixel `(i, j)` rendered from `samples` camera rays through it: the
/// tone-mapped sum of one colour per ray, each colour the radiance along its
/// ray for some valid draws, and exactly the background where the ray misses
/// the scene.
pub open spec fn sampled_pixel(
    camera: Camera,
    world: HittableList,
    i: int,
    j: int,
    width: int,
    height: int,
    samples: int,
    c: Vec3,
) -> bool {
    exists|rays: Seq<Ray>, colors: Seq<Vec3>|
        #![trigger rays.len(), sum_of(colors)]
        {
            &&& rays.len() == samples
            &&& colors.len() == samples
            &&& forall|k: int| 0 <= k < samples ==> is_pixel_ray(camera, i, j, width, height, #[trigger] rays[k])
            &&& forall|k: int|
                0 <= k < samples && scene_hit(world, #[trigger] rays[k]) is None ==> colors[k] == background_spec(rays[k])
            &&& forall|k: int|
                0 <= k < samples ==> exists|draws: Seq<(Vec3, int)>|
                    valid_draws(draws) && #[trigger] colors[k] == radiance_spec(world, rays[k], 0, white(), draws)
            &&& c == tone_map_spec(sum_of(colors), samples)
        }
}

/// The colour of pixel `(i, j)`: `samples` camera rays through jittered points
/// of the pixel, traced and averaged, then gamma-corrected. The random values
/// come from a generator seeded with `seed`. Each ray that misses the scene
/// contributes exactly the background along it.
pub fn render_pixel(
    camera: &Camera,
    world: &HittableList,
    i: u32,
    j: u32,
    width: u32,
    height: u32,
    samples: u32,
    seed: u64,
) -> (c: Vec3)
    requires
        camera_wf(*camera),
        scene_wf(world.list@),
        i < width <= MAX_SIDE,
        j < height <= MAX_SIDE,
        samples > 0,
    ensures
        sampled_pixel(*camera, *world, i as int, j as int, width as int, height as int, samples as int, c),
        displayable(c),
        albedos_bounded(world.list@) ==> unit_color(c),
{
    let mut rng = rng_from_seed(seed);
    let mut col = Vec3 { x: 0, y: 0, z: 0 };
    let ghost mut rays: Seq<Ray> = Seq::empty();
    let ghost mut colors: Seq<Vec3> = Seq::empty();
    let mut k: u32 = 0;
    while k < samples
        invariant
            camera_wf(*camera),
            scene_wf(world.list@),
            i < width <= MAX_SIDE,
            j < height <= MAX_SIDE,
            k <= samples,
            wf(col),
            col == sum_of(colors),
            rays.len() == k,
            colors.len() == k,
            forall|m: int|
                0 <= m < k ==> is_pixel_ray(*camera, i as int, j as int, width as int, height as int, #[trigger] rays[m]),
            forall|m: int|
                0 <= m < k && scene_hit(*world, #[trigger] rays[m]) is None ==> colors[m] == background_spec(rays[m]),
            forall|m: int|
                0 <= m < k ==> exists|draws: Seq<(Vec3, int)>|
                    valid_draws(draws) && #[trigger] colors[m] == radiance_spec(*world, rays[m], 0, white(), draws),
            forall|m: int| 0 <= m < k ==> ray_wf(#[trigger] rays[m]),
        decreases samples - k,
    {
        let ju = random_fraction(&mut rng);
        let jv = random_fraction(&mut rng);
        let u = screen(i, ju, width);
        let v = screen(j, jv, height);
        let r = camera.get_ray(u, v, &mut rng);
        let cc = color(&r, world, 0, &mut rng);
        proof {
            let rd = choose|rd: Vec3| in_unit_disk(rd) && r == #[trigger] ray_spec(*camera, u as int, v as int, rd);
            assert(r == ray_spec(*camera, screen_coord(i as int, ju as int, width as int), screen_coord(j as int, jv as int, height as int), rd));
            assert(is_pixel_ray(*camera, i as int, j as int, width as int, height as int, r));
            let dr = choose|dr: Seq<(Vec3, int)>| valid_draws(dr) && cc == #[trigger] radiance_spec(*world, r, 0, white(), dr);
            let old_colors = colors;
            let old_rays = rays;
            rays = rays.push(r);
            colors = colors.push(cc);
            assert(colors.drop_last() =~= old_colors);
            assert forall|m: int| 0 <= m < k + 1 implies exists|draws: Seq<(Vec3, int)>|
                valid_draws(draws) && #[trigger] colors[m] == radiance_spec(*world, rays[m], 0, white(), draws) by {
                if m < k {
                    assert(colors[m] == old_colors[m] && rays[m] == old_rays[m]);
                    assert(ray_wf(old_rays[m]));
                } else {
                    assert(colors[m] == radiance_spec(*world, rays[m], 0, white(), dr));
                }
            }
        }
        col = col.add(cc);
        k = k + 1;
    }
    let c = tone_map(col, samples);
    proof {
        if albedos_bounded(world.list@) {
            assert forall|m: int| 0 <= m < colors.len() implies unit_color(#[trigger] colors[m]) by {
                let dr = choose|dr: Seq<(Vec3, int)>|
                    valid_draws(dr) && #[trigger] colors[m] == radiance_spec(*world, rays[m], 0, white(), dr);
                assert(ray_wf(rays[m]));
                lemma_radiance_unit(*world, rays[m], 0, white(), dr);
            }
            lemma_sum_bounded(colors);
            lemma_tone_map_unit(col, samples as int);
        }
    }
    assert(sampled_pixel(*camera, *world, i as int, j as int, width as int, height as int, samples as int, c));
    c
}

/// The whole image, row by row from the top (`j = height - 1`) down, each row
/// from `i = 0` across: entry `k` is pixel `(k % width, height - 1 - k / width)`.
/// Pixel `(i, j)` is rendered with the seed `seed + (j * width + i)`, wrapping.
pub fn render(
    camera: &Camera,
    world: &HittableList,
    width: u32,
    height: u32,
    samples: u32,
    seed: u64,
) -> (pixels: Vec<Vec3>)
    requires
        camera_wf(*camera),
        scene_wf(world.list@),
        width <= MAX_SIDE,
        height <= MAX_SIDE,
        samples > 0,
    ensures
        pixels@.len() == width * height,
        forall|k: int| 0 <= k < pixels@.len() ==> displayable(#[trigger] pixels@[k]),
        albedos_bounded(world.list@) ==> forall|k: int| 0 <= k < pixels@.len() ==> unit_color(#[trigger] pixels@[k]),
        forall|k: int|
            0 <= k < pixels@.len() ==> sampled_pixel(
                *camera,
                *world,
                k % width as int,
                height - 1 - k / width as int,
                width as int,
                height as int,
                samples as int,
                #[trigger] pixels@[k],
            ),
{
    let mut pixels: Vec<Vec3> = Vec::new();
    let mut row: u32 = height;
    while row > 0
        invariant
            camera_wf(*camera),
            scene_wf(world.list@),
            width <= MAX_SIDE,
            height <= MAX_SIDE,
            samples > 0,
            row <= height,
            pixels@.len() == (height - row) * width,
            forall|k: int| 0 <= k < pixels@.len() ==> displayable(#[trigger] pixels@[k]),
            albedos_bounded(world.list@) ==> forall|k: int| 0 <= k < pixels@.len() ==> unit_color(#[trigger] pixels@[k]),
            forall|k: int|
                0 <= k < pixels@.len() ==> sampled_pixel(
                    *camera,
                    *world,
                    k % width as int,
                    height - 1 - k / width as int,
                    width as int,
                    height as int,
                    samples as int,
                    #[trigger] pixels@[k],
                ),
        decreases row,
    {
        let j = row - 1;
        let mut i: u32 = 0;
        while i < width
            invariant
                camera_wf(*camera),
                scene_wf(world.list@),
                width <= MAX_SIDE,
                height <= MAX_SIDE,
                samples > 0,
                j < height,
                row == j + 1,
                row <= height,
                i <= width,
                pixels@.len() == (height - row) * width + i,
                forall|k: int| 0 <= k < pixels@.len() ==> displayable(#[trigger] pixels@[k]),
                albedos_bounded(world.list@) ==> forall|k: int| 0 <= k < pixels@.len() ==> unit_color(#[trigger] pixels@[k]),
                forall|k: int|
                    0 <= k < pixels@.len() ==> sampled_pixel(
                        *camera,
                        *world,
                        k % width as int,
                        height - 1 - k / width as int,
                        width as int,
                        height as int,
                        samples as int,
                        #[trigger] pixels@[k],
                    ),
            decreases width - i,
        {
            assert((j as int) * (width as int) + (i as int) < 0x1_0000_0000_0000_0000) by (nonlinear_arith)
                requires
                    j < 32768,
                    width <= 32768,
                    i < width,
            ;
            let index: u64 = (j as u64) * (width as u64) + (i as u64);
            let c = render_pixel(camera, world, i, j, width, height, samples, seed.wrapping_add(index));
            proof {
                let k = pixels@.len() as int;
                vstd::arithmetic::div_mod::lemma_fundamental_div_mod_converse(
                    k,
                    width as int,
                    (height - row) as int,
                    i as int,
                );
            }
            pixels.push(c);
            i = i + 1;
        }
        proof {
            assert((height - row) * width + width == (height - (row - 1)) * width) by (nonlinear_arith);
        }
        row = row - 1;
    }
    assert(height * width == width * height) by (nonlinear_arith);
    pixels
}

/// An empty scene renders every pixel from the background alone: each colour
/// that the pixel averages is exactly the background along its camera ray.
pub proof fn lemma_empty_scene_background(
    camera: Camera,
    world: HittableList,
    i: int,
    j: int,
    width: int,
    height: int,
    samples: int,
    c: Vec3,
)
    requires
        world.list@.len() == 0,
        sampled_pixel(camera, world, i, j, width, height, samples, c),
    ensures
        exists|rays: Seq<Ray>, colors: Seq<Vec3>|
            #![trigger rays.len(), sum_of(colors)]
            {
                &&& rays.len() == samples
                &&& colors.len() == samples
                &&& forall|k: int| 0 <= k < samples ==> is_pixel_ray(camera, i, j, width, height, #[trigger] rays[k])
                &&& forall|k: int| 0 <= k < samples ==> #[trigger] colors[k] == background_spec(rays[k])
                &&& c == tone_map_spec(sum_of(colors), samples)
            },
{
    let (rays, colors) = choose|rays: Seq<Ray>, colors: Seq<Vec3>|
        #![trigger rays.len(), sum_of(colors)]
        {
            &&& rays.len() == samples
            &&& colors.len() == samples
            &&& forall|k: int| 0 <= k < samples ==> is_pixel_ray(camera, i, j, width, height, #[trigger] rays[k])
            &&& forall|k: int|
                0 <= k < samples && scene_hit(world, #[trigger] rays[k]) is None ==> colors[k] == background_spec(rays[k])
            &&& c == tone_map_spec(sum_of(colors), samples)
        };
    assert forall|k: int| 0 <= k < samples implies #[trigger] colors[k] == background_spec(rays[k]) by {
        assert(scene_hit(world, rays[k]) is None);
    }
    assert(rays.len() == samples && sum_of(colors) == sum_of(colors));
}

} // verus!
