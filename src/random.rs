//! Random sampling on an explicitly passed, seedable generator.
use vstd::prelude::*;
use rand::rngs::StdRng;
use rand::{Rng, SeedableRng};
use crate::fixed::ONE;
use crate::vec3::{dot_raw, dot_wide, wf, Vec3};

verus! {

#[verifier::external_type_specification]
#[verifier::external_body]
pub struct ExStdRng(StdRng);

/// Relies on rand's `SeedableRng::seed_from_u64`: a generator determined by a
/// 64-bit seed.
#[verifier::external_body]
pub(crate) fn rng_from_seed(seed: u64) -> (r: StdRng) {
    StdRng::seed_from_u64(seed)
}

/// Relies on rand's `Rng::gen_range` over `0..n`: a value in `[0, n)`; it
/// panics on an empty range, which `requires` leaves out.
#[verifier::external_body]
pub(crate) fn rng_below(rng: &mut StdRng, n: i64) -> (r: i64)
    requires
        n > 0,
    ensures
        0 <= r < n,
{
    rng.gen_range(0..n)
}

/// How many candidates the rejection samplers draw before settling on the
/// centre; each candidate is accepted with probability above one half.
pub const MAX_DRAWS: u32 = 64;

/// A uniform fixed-point value in `[0, 1)`.
pub fn random_fraction(rng: &mut StdRng) -> (r: i64)
    ensures
        0 <= r < ONE,
{
    rng_below(rng, ONE)
}

/// A uniform fixed-point value in `[-1, 1)`.
fn random_signed(rng: &mut StdRng) -> (r: i64)
    ensures
        -ONE <= r < ONE,
{
    rng_below(rng, 2 * ONE) - ONE
}

/// Strictly inside the unit sphere.
pub open spec fn in_unit_sphere(p: Vec3) -> bool {
    wf(p) && dot_raw(p, p) < ONE * ONE
}

/// Strictly inside the unit disk of the `xy` plane.
pub open spec fn in_unit_disk(p: Vec3) -> bool {
    in_unit_sphere(p) && p.z == 0
}

/// A candidate of rejection sampling: every coordinate in `[-1, 1)`.
pub open spec fn in_cube(p: Vec3) -> bool {
    -ONE <= p.x < ONE && -ONE <= p.y < ONE && -ONE <= p.z < ONE
}

/// The first of `cands` strictly inside the unit sphere, or the centre where
/// none is.
pub open spec fn first_inside(cands: Seq<Vec3>) -> Vec3
    decreases cands.len(),
{
    if cands.len() == 0 {
        Vec3 { x: 0, y: 0, z: 0 }
    } else if in_unit_sphere(cands[0]) {
        cands[0]
    } else {
        first_inside(cands.drop_first())
    }
}

/// After rejected candidates, the next candidate decides.
pub proof fn lemma_first_inside_after_rejects(pre: Seq<Vec3>, p: Vec3)
    requires
        forall|k: int| 0 <= k < pre.len() ==> !in_unit_sphere(#[trigger] pre[k]),
    ensures
        first_inside(pre.push(p)) == (if in_unit_sphere(p) {
            p
        } else {
            Vec3 { x: 0, y: 0, z: 0 }
        }),
        first_inside(pre) == (Vec3 { x: 0, y: 0, z: 0 }),
    decreases pre.len(),
{
    if pre.len() > 0 {
        let rest = pre.drop_first();
        assert forall|k: int| 0 <= k < rest.len() implies !in_unit_sphere(#[trigger] rest[k]) by {
            assert(rest[k] == pre[k + 1]);
        }
        lemma_first_inside_after_rejects(rest, p);
        assert(pre.push(p).drop_first() =~= rest.push(p));
        assert(pre.push(p)[0] == pre[0]);
    } else {
        assert(pre.push(p).drop_first() =~= Seq::<Vec3>::empty());
        assert(pre.push(p)[0] == p);
        assert(first_inside(Seq::<Vec3>::empty()) == (Vec3 { x: 0, y: 0, z: 0 }));
    }
}

/// Whether a candidate is accepted: strictly inside the unit sphere.
fn accepts(p: Vec3) -> (r: bool)
    requires
        in_cube(p),
    ensures
        r == in_unit_sphere(p),
{
    dot_wide(p, p) < 0x1_0000_0000
}

/// A point of the unit sphere, by rejection sampling in the enclosing cube:
/// the first accepted of at most `MAX_DRAWS` candidates, or the centre when
/// all are rejected.
pub fn random_in_unit_sphere(rng: &mut StdRng) -> (p: Vec3)
    ensures
        in_unit_sphere(p),
        exists|cands: Seq<Vec3>|
            cands.len() <= MAX_DRAWS && (forall|k: int| 0 <= k < cands.len() ==> in_cube(#[trigger] cands[k])) && p
                == #[trigger] first_inside(cands),
{
    let mut n: u32 = 0;
    let ghost mut cands: Seq<Vec3> = Seq::empty();
    while n < MAX_DRAWS
        invariant
            cands.len() == n <= MAX_DRAWS,
            forall|k: int| 0 <= k < cands.len() ==> in_cube(#[trigger] cands[k]) && !in_unit_sphere(cands[k]),
        decreases MAX_DRAWS - n,
    {
        let p = Vec3 { x: random_signed(rng), y: random_signed(rng), z: random_signed(rng) };
        proof {
            lemma_first_inside_after_rejects(cands, p);
        }
        if accepts(p) {
            proof {
                assert(cands.push(p)[n as int] == p);
                assert forall|k: int| 0 <= k < cands.push(p).len() implies in_cube(#[trigger] cands.push(p)[k]) by {
                    if k < n {
                        assert(cands.push(p)[k] == cands[k]);
                    }
                }
            }
            return p;
        }
        proof {
            let old_cands = cands;
            cands = cands.push(p);
            assert forall|k: int| 0 <= k < cands.len() implies in_cube(#[trigger] cands[k]) && !in_unit_sphere(cands[k]) by {
                if k < n {
                    assert(cands[k] == old_cands[k]);
                }
            }
        }
        n = n + 1;
    }
    proof {
        lemma_first_inside_after_rejects(cands, Vec3 { x: 0, y: 0, z: 0 });
    }
    Vec3 { x: 0, y: 0, z: 0 }
}

/// A point of the unit disk, by rejection sampling in the enclosing square:
/// the first accepted of at most `MAX_DRAWS` candidates, or the centre when
/// all are rejected.
pub fn random_in_unit_disk(rng: &mut StdRng) -> (p: Vec3)
    ensures
        in_unit_disk(p),
        exists|cands: Seq<Vec3>|
            cands.len() <= MAX_DRAWS && (forall|k: int|
                0 <= k < cands.len() ==> in_cube(#[trigger] cands[k]) && cands[k].z == 0) && p == #[trigger] first_inside(
                cands,
            ),
{
    let mut n: u32 = 0;
    let ghost mut cands: Seq<Vec3> = Seq::empty();
    while n < MAX_DRAWS
        invariant
            cands.len() == n <= MAX_DRAWS,
            forall|k: int|
                0 <= k < cands.len() ==> in_cube(#[trigger] cands[k]) && cands[k].z == 0 && !in_unit_sphere(cands[k]),
        decreases MAX_DRAWS - n,
    {
        let p = Vec3 { x: random_signed(rng), y: random_signed(rng), z: 0 };
        proof {
            lemma_first_inside_after_rejects(cands, p);
        }
        if accepts(p) {
            proof {
                assert(cands.push(p)[n as int] == p);
                assert forall|k: int| 0 <= k < cands.push(p).len() implies in_cube(#[trigger] cands.push(p)[k])
                    && cands.push(p)[k].z == 0 by {
                    if k < n {
                        assert(cands.push(p)[k] == cands[k]);
                    }
                }
            }
            return p;
        }
        proof {
            let old_cands = cands;
            cands = cands.push(p);
            assert forall|k: int| 0 <= k < cands.len() implies in_cube(#[trigger] cands[k]) && cands[k].z == 0
                && !in_unit_sphere(cands[k]) by {
                if k < n {
                    assert(cands[k] == old_cands[k]);
                }
            }
        }
        n = n + 1;
    }
    proof {
        lemma_first_inside_after_rejects(cands, Vec3 { x: 0, y: 0, z: 0 });
    }
    Vec3 { x: 0, y: 0, z: 0 }
}

} // verus!
