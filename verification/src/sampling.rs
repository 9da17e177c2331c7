//! Random draws. Every draw takes the generator as an explicit handle, so
//! that each worker can own a stream of its own and a render can be
//! repeated from a seed.
use crate::scalar::{Scalar, SCALE};
use crate::vec3::Vec3;
use rand::rngs::StdRng;
use rand::{Rng, SeedableRng};
use vstd::prelude::*;

verus! {

#[verifier::external_type_specification]
#[verifier::external_body]
pub struct ExStdRng(rand::rngs::StdRng);

/// How often a draw is repeated before the sampler settles for the centre.
pub const MAX_TRIES: u32 = 64;

/// Calls `Rng::gen_range` of the crate rand on a pair of `i64` bounds. The
/// crate draws a value that is at least `low` and less than `high`; it
/// panics unless `low < high`. Which value comes back depends on the state
/// of the generator, of which nothing is claimed.
#[verifier::external_body]
pub(crate) fn draw_between(rng: &mut StdRng, low: i64, high: i64) -> (r: i64)
    requires
        low < high,
    ensures
        low <= r < high,
{
    rng.gen_range(low, high)
}

/// Calls `SeedableRng::seed_from_u64` of the crate rand for its standard
/// generator. Nothing is claimed of the generator that comes back.
#[verifier::external_body]
pub(crate) fn seeded(seed: u64) -> (rng: StdRng) {
    StdRng::seed_from_u64(seed)
}

/// Calls `random` of the crate rand for a `u64`, which draws from the
/// generator of the running thread. Nothing is claimed of the number that
/// comes back.
#[verifier::external_body]
pub(crate) fn fresh_seed() -> (seed: u64) {
    rand::random()
}

/// A number drawn from `[0, 1)`.
pub fn draw_unit(rng: &mut StdRng) -> (r: Scalar)
    ensures
        0 <= r.raw < SCALE,
{
    Scalar::new(draw_between(rng, 0, 1_000_000))
}

/// A number drawn from `[-1, 1)`.
pub fn draw_signed_unit(rng: &mut StdRng) -> (r: Scalar)
    ensures
        -SCALE <= r.raw < SCALE,
{
    Scalar::new(draw_between(rng, -1_000_000, 1_000_000))
}

/// A number drawn from `[low, high)`, or `low` where that interval is
/// empty.
pub fn draw_within(rng: &mut StdRng, low: Scalar, high: Scalar) -> (r: Scalar)
    ensures
        low.raw < high.raw ==> low.raw <= r.raw < high.raw,
        low.raw >= high.raw ==> r == low,
{
    if low.raw < high.raw {
        Scalar::new(draw_between(rng, low.raw, high.raw))
    } else {
        low
    }
}

/// A point of the unit disk in the plane `z = 0`, found by rejection: of
/// at most `MAX_TRIES` points drawn from the enclosing square, the first
/// that falls inside the circle; the centre where none does.
pub fn random_in_unit_disk(rng: &mut StdRng) -> (r: Vec3)
    ensures
        exists|candidates: Seq<Vec3>|
            {
                &&& candidates.len() <= MAX_TRIES
                &&& forall|i: int|
                    0 <= i < candidates.len() ==> is_square_draw(#[trigger] candidates[i])
                &&& r == #[trigger] first_accepted(candidates)
            },
        r.z.raw == 0,
        r.length_squared().raw < SCALE,
        -SCALE <= r.x.raw < SCALE,
        -SCALE <= r.y.raw < SCALE,
{
    let ghost mut rejected: Seq<Vec3> = Seq::empty();
    let mut tries: u32 = 0;
    while tries < MAX_TRIES
        invariant
            tries <= MAX_TRIES,
            rejected.len() == tries,
            forall|i: int| 0 <= i < rejected.len() ==> is_square_draw(#[trigger] rejected[i]),
            forall|i: int| 0 <= i < rejected.len() ==> !inside_unit(#[trigger] rejected[i]),
        decreases MAX_TRIES - tries,
    {
        let x = draw_signed_unit(rng);
        let y = draw_signed_unit(rng);
        let tmp = Vec3::new(x, y, Scalar::new(0));
        if tmp.length_squared().raw < SCALE {
            proof {
                let candidates = rejected + seq![tmp];
                lemma_rejected_are_skipped(rejected, seq![tmp]);
                assert(seq![tmp][0] == tmp);
                assert(tmp == first_accepted(candidates));
            }
            return tmp;
        }
        proof {
            rejected = rejected.push(tmp);
        }
        tries += 1;
    }
    let zero = Scalar::new(0);
    let middle = Vec3::new(zero, zero, zero);
    proof {
        lemma_zero_length();
        lemma_rejected_are_skipped(rejected, Seq::empty());
        assert(rejected + Seq::<Vec3>::empty() =~= rejected);
        assert(middle == first_accepted(rejected));
    }
    middle
}

/// A point inside the unit sphere, found by rejection: of at most
/// `MAX_TRIES` points drawn from the enclosing cube, the first that falls
/// inside the sphere; the centre where none does.
pub fn random_in_unit_sphere(rng: &mut StdRng) -> (r: Vec3)
    ensures
        exists|candidates: Seq<Vec3>|
            {
                &&& candidates.len() <= MAX_TRIES
                &&& forall|i: int|
                    0 <= i < candidates.len() ==> is_cube_draw(#[trigger] candidates[i])
                &&& r == #[trigger] first_accepted(candidates)
            },
        r.length_squared().raw < SCALE,
        -SCALE <= r.x.raw < SCALE,
        -SCALE <= r.y.raw < SCALE,
        -SCALE <= r.z.raw < SCALE,
{
    let ghost mut rejected: Seq<Vec3> = Seq::empty();
    let mut tries: u32 = 0;
    while tries < MAX_TRIES
        invariant
            tries <= MAX_TRIES,
            rejected.len() == tries,
            forall|i: int| 0 <= i < rejected.len() ==> is_cube_draw(#[trigger] rejected[i]),
            forall|i: int| 0 <= i < rejected.len() ==> !inside_unit(#[trigger] rejected[i]),
        decreases MAX_TRIES - tries,
    {
        let x = draw_signed_unit(rng);
        let y = draw_signed_unit(rng);
        let z = draw_signed_unit(rng);
        let tmp = Vec3::new(x, y, z);
        if tmp.length_squared().raw < SCALE {
            proof {
                let candidates = rejected + seq![tmp];
                lemma_rejected_are_skipped(rejected, seq![tmp]);
                assert(seq![tmp][0] == tmp);
                assert(tmp == first_accepted(candidates));
            }
            return tmp;
        }
        proof {
            rejected = rejected.push(tmp);
        }
        tries += 1;
    }
    let zero = Scalar::new(0);
    let middle = Vec3::new(zero, zero, zero);
    proof {
        lemma_zero_length();
        lemma_rejected_are_skipped(rejected, Seq::empty());
        assert(rejected + Seq::<Vec3>::empty() =~= rejected);
        assert(middle == first_accepted(rejected));
    }
    middle
}

/// The centre, to which the samplers fall back.
pub open spec fn centre() -> Vec3 {
    Vec3 { x: Scalar { raw: 0 }, y: Scalar { raw: 0 }, z: Scalar { raw: 0 } }
}

/// Whether a point lies inside the unit sphere.
pub open spec fn inside_unit(v: Vec3) -> bool {
    v.length_squared().raw < SCALE
}

/// Whether a point can be drawn as a candidate for the unit disk: it lies
/// in the plane `z = 0`, in the square that reaches from -1 to 1.
pub open spec fn is_square_draw(v: Vec3) -> bool {
    v.z.raw == 0 && -SCALE <= v.x.raw < SCALE && -SCALE <= v.y.raw < SCALE
}

/// Whether a point can be drawn as a candidate for the unit sphere: it
/// lies in the cube that reaches from -1 to 1.
pub open spec fn is_cube_draw(v: Vec3) -> bool {
    -SCALE <= v.x.raw < SCALE && -SCALE <= v.y.raw < SCALE && -SCALE <= v.z.raw < SCALE
}

/// What rejection sampling makes of the candidates that were drawn, in the
/// order in which they were drawn: the first of them that lies inside the
/// unit sphere, or the centre where none does.
pub open spec fn first_accepted(candidates: Seq<Vec3>) -> Vec3
    decreases candidates.len(),
{
    if candidates.len() == 0 {
        centre()
    } else if inside_unit(candidates[0]) {
        candidates[0]
    } else {
        first_accepted(candidates.drop_first())
    }
}

/// Candidates that lie outside the unit sphere are passed over.
pub proof fn lemma_rejected_are_skipped(rejected: Seq<Vec3>, rest: Seq<Vec3>)
    requires
        forall|i: int| 0 <= i < rejected.len() ==> !inside_unit(#[trigger] rejected[i]),
    ensures
        first_accepted(rejected + rest) == first_accepted(rest),
    decreases rejected.len(),
{
    if rejected.len() == 0 {
        assert(rejected + rest =~= rest);
    } else {
        let all = rejected + rest;
        assert(all[0] == rejected[0]);
        assert(all.drop_first() =~= rejected.drop_first() + rest);
        assert forall|i: int| 0 <= i < rejected.drop_first().len() implies !inside_unit(
            #[trigger] rejected.drop_first()[i],
        ) by {
            assert(rejected.drop_first()[i] == rejected[i + 1]);
        }
        lemma_rejected_are_skipped(rejected.drop_first(), rest);
    }
}

/// A random direction: a point drawn inside the unit sphere, divided by
/// its length.
pub fn rand_unit_vector(rng: &mut StdRng) -> (r: Vec3)
    ensures
        exists|p: Vec3| p.length_squared().raw < SCALE && r == p.unit_vector(),
{
    let p = random_in_unit_sphere(rng);
    p.unit_vector()
}

/// The zero vector has length zero.
pub proof fn lemma_zero_length()
    ensures
        (Vec3 { x: Scalar { raw: 0 }, y: Scalar { raw: 0 }, z: Scalar { raw: 0 } }).length_squared().raw
            == 0,
{
    assert(0int * 0int == 0) by (nonlinear_arith);
    assert(0int / (SCALE as int) == 0);
}

} // verus!
