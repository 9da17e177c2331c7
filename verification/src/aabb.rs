//! Axis-aligned bounding boxes and the exact ray/box test.
//!
//! The test never divides. Each bound on the ray parameter is kept as a
//! fraction of two integers and fractions are compared by cross
//! multiplication, so the answer is the geometric truth about the ray and
//! the box, with no rounding. A ray that runs parallel to a pair of faces
//! meets the slab between them when its origin lies between the faces.
use crate::ray::Ray;
use crate::scalar::{Scalar, SCALE};
use crate::vec3::Point3;
use vstd::prelude::*;

verus! {

/// A box with faces parallel to the coordinate planes.
#[derive(Clone, Copy, Debug, PartialEq, Eq, Structural)]
pub struct AABB {
    pub min: Point3,
    pub max: Point3,
}

/// Whether the point at parameter `p / q` of a ray that starts at `o` and
/// advances by `d` lies between `lo` and `hi` along one axis.
pub open spec fn in_slab(lo: int, hi: int, o: int, d: int, p: int, q: int) -> bool {
    lo * q <= o * q + p * d && o * q + p * d <= hi * q
}

/// A bound on the ray parameter: the fraction `n / d`.
struct Frac {
    n: i128,
    d: i128,
}

impl Frac {
    /// The fraction is small enough to be cross-multiplied with another.
    spec fn ok(self) -> bool {
        0 < self.d <= 0x8000_0000_0000_0000 && -0xffff_ffff_ffff_ffff <= self.n
            <= 0xffff_ffff_ffff_ffff
    }

    /// `self < other` as rationals.
    spec fn below(self, other: Frac) -> bool {
        self.n * other.d < other.n * self.d
    }

    /// `self <= p / q`.
    spec fn at_most(self, p: int, q: int) -> bool {
        self.n * q <= p * self.d
    }

    /// `p / q <= self`.
    spec fn at_least(self, p: int, q: int) -> bool {
        p * self.d <= self.n * q
    }

    fn lt(&self, other: &Frac) -> (r: bool)
        requires
            self.ok(),
            other.ok(),
        ensures
            r == self.below(*other),
    {
        let a: i128 = self.n;
        let b: i128 = other.d;
        let c: i128 = other.n;
        let d: i128 = self.d;
        assert(-0x7fff_ffff_ffff_ffff_ffff_ffff_ffff_ffff <= a * b
            <= 0x7fff_ffff_ffff_ffff_ffff_ffff_ffff_ffff) by (nonlinear_arith)
            requires
                -0xffff_ffff_ffff_ffff <= a <= 0xffff_ffff_ffff_ffff,
                0 < b <= 0x8000_0000_0000_0000,
        ;
        assert(-0x7fff_ffff_ffff_ffff_ffff_ffff_ffff_ffff <= c * d
            <= 0x7fff_ffff_ffff_ffff_ffff_ffff_ffff_ffff) by (nonlinear_arith)
            requires
                -0xffff_ffff_ffff_ffff <= c <= 0xffff_ffff_ffff_ffff,
                0 < d <= 0x8000_0000_0000_0000,
        ;
        a * b < c * d
    }
}

/// Both bounds hold of `p / q`.
spec fn between(lo: Frac, hi: Frac, p: int, q: int) -> bool {
    lo.at_most(p, q) && hi.at_least(p, q)
}

/// The order of fractions with positive denominators is transitive.
proof fn lemma_frac_order(x1: int, y1: int, x2: int, y2: int, x3: int, y3: int)
    requires
        y1 > 0,
        y2 > 0,
        y3 > 0,
        x1 * y2 <= x2 * y1,
        x2 * y3 <= x3 * y2,
    ensures
        x1 * y3 <= x3 * y1,
{
    assert((x1 * y2) * y3 <= (x2 * y1) * y3) by (nonlinear_arith)
        requires
            x1 * y2 <= x2 * y1,
            y3 > 0,
    ;
    assert((x2 * y3) * y1 <= (x3 * y2) * y1) by (nonlinear_arith)
        requires
            x2 * y3 <= x3 * y2,
            y1 > 0,
    ;
    assert((x1 * y3) * y2 <= (x3 * y1) * y2) by (nonlinear_arith)
        requires
            (x1 * y2) * y3 <= (x2 * y1) * y3,
            (x2 * y3) * y1 <= (x3 * y2) * y1,
    ;
    assert(x1 * y3 <= x3 * y1) by (nonlinear_arith)
        requires
            (x1 * y3) * y2 <= (x3 * y1) * y2,
            y2 > 0,
    ;
}

/// Along an axis on which the ray advances, the slab condition is a pair of
/// bounds on the ray parameter.
proof fn lemma_slab_forward(lo: int, hi: int, o: int, d: int, p: int, q: int)
    ensures
        in_slab(lo, hi, o, d, p, q) <==> ((lo - o) * q <= p * d && p * d <= (hi - o) * q),
        in_slab(lo, hi, o, d, p, q) <==> ((o - hi) * q <= p * (-d) && p * (-d) <= (o - lo) * q),
{
    assert((lo - o) * q == lo * q - o * q) by (nonlinear_arith);
    assert((hi - o) * q == hi * q - o * q) by (nonlinear_arith);
    assert((o - hi) * q == o * q - hi * q) by (nonlinear_arith);
    assert((o - lo) * q == o * q - lo * q) by (nonlinear_arith);
    assert(p * (-d) == -(p * d)) by (nonlinear_arith);
}

/// Along an axis on which the ray does not advance, the slab condition
/// says that the origin lies in the slab.
proof fn lemma_slab_parallel(lo: int, hi: int, o: int, p: int, q: int)
    requires
        q > 0,
    ensures
        in_slab(lo, hi, o, 0, p, q) <==> (lo <= o && o <= hi),
{
    assert(p * 0 == 0) by (nonlinear_arith);
    assert(lo * q <= o * q <==> lo <= o) by (nonlinear_arith)
        requires
            q > 0,
    ;
    assert(o * q <= hi * q <==> o <= hi) by (nonlinear_arith)
        requires
            q > 0,
    ;
}

/// Replacing the lower bound by the larger of itself and another bound
/// keeps exactly the parameters that satisfy both.
proof fn lemma_raise(lo: Frac, near: Frac, p: int, q: int)
    requires
        lo.d > 0,
        near.d > 0,
        q > 0,
    ensures
        lo.below(near) ==> (near.at_most(p, q) <==> near.at_most(p, q) && lo.at_most(p, q)),
        !lo.below(near) ==> (lo.at_most(p, q) <==> near.at_most(p, q) && lo.at_most(p, q)),
{
    if lo.below(near) {
        if near.at_most(p, q) {
            lemma_frac_order(lo.n as int, lo.d as int, near.n as int, near.d as int, p, q);
        }
    } else {
        if lo.at_most(p, q) {
            lemma_frac_order(near.n as int, near.d as int, lo.n as int, lo.d as int, p, q);
        }
    }
}

/// Replacing the upper bound by the smaller of itself and another bound
/// keeps exactly the parameters that satisfy both.
proof fn lemma_lower(hi: Frac, far: Frac, p: int, q: int)
    requires
        hi.d > 0,
        far.d > 0,
        q > 0,
    ensures
        far.below(hi) ==> (far.at_least(p, q) <==> far.at_least(p, q) && hi.at_least(p, q)),
        !far.below(hi) ==> (hi.at_least(p, q) <==> far.at_least(p, q) && hi.at_least(p, q)),
{
    if far.below(hi) {
        if far.at_least(p, q) {
            lemma_frac_order(p, q, far.n as int, far.d as int, hi.n as int, hi.d as int);
        }
    } else {
        if hi.at_least(p, q) {
            lemma_frac_order(p, q, hi.n as int, hi.d as int, far.n as int, far.d as int);
        }
    }
}

/// Narrows the parameter interval `[lo, hi]` to the part on which the ray
/// lies in the slab `[bmin, bmax]` of one axis. `None` means that no
/// parameter at all puts the ray in the slab.
fn clip(lo: Frac, hi: Frac, bmin: i64, bmax: i64, o: i64, d: i64) -> (r: Option<(Frac, Frac)>)
    requires
        lo.ok(),
        hi.ok(),
    ensures
        match r {
            Some((lo2, hi2)) => lo2.ok() && hi2.ok() && forall|p: int, q: int|
                q > 0 ==> (#[trigger] between(lo2, hi2, p, q) <==> between(lo, hi, p, q) && in_slab(
                    bmin as int,
                    bmax as int,
                    o as int,
                    d as int,
                    p,
                    q,
                )),
            None => forall|p: int, q: int|
                q > 0 ==> !#[trigger] in_slab(bmin as int, bmax as int, o as int, d as int, p, q),
        },
{
    if d == 0 {
        if bmin <= o && o <= bmax {
            assert forall|p: int, q: int| q > 0 implies (#[trigger] between(lo, hi, p, q)
                <==> between(lo, hi, p, q) && in_slab(
                bmin as int,
                bmax as int,
                o as int,
                d as int,
                p,
                q,
            )) by {
                lemma_slab_parallel(bmin as int, bmax as int, o as int, p, q);
            }
            Some((lo, hi))
        } else {
            assert forall|p: int, q: int| q > 0 implies !#[trigger] in_slab(
                bmin as int,
                bmax as int,
                o as int,
                d as int,
                p,
                q,
            ) by {
                lemma_slab_parallel(bmin as int, bmax as int, o as int, p, q);
            }
            None
        }
    } else {
        let near = if d > 0 {
            Frac { n: bmin as i128 - o as i128, d: d as i128 }
        } else {
            Frac { n: o as i128 - bmax as i128, d: -(d as i128) }
        };
        let far = if d > 0 {
            Frac { n: bmax as i128 - o as i128, d: d as i128 }
        } else {
            Frac { n: o as i128 - bmin as i128, d: -(d as i128) }
        };
        let raise = lo.lt(&near);
        let lower = far.lt(&hi);
        let lo2 = if raise {
            near
        } else {
            lo
        };
        let hi2 = if lower {
            far
        } else {
            hi
        };
        assert forall|p: int, q: int| q > 0 implies (#[trigger] between(lo2, hi2, p, q)
            <==> between(lo, hi, p, q) && in_slab(
            bmin as int,
            bmax as int,
            o as int,
            d as int,
            p,
            q,
        )) by {
            lemma_slab_forward(bmin as int, bmax as int, o as int, d as int, p, q);
            lemma_raise(lo, near, p, q);
            lemma_lower(hi, far, p, q);
            assert(in_slab(bmin as int, bmax as int, o as int, d as int, p, q) <==> near.at_most(
                p,
                q,
            ) && far.at_least(p, q));
        }
        Some((lo2, hi2))
    }
}

impl AABB {
    /// Each coordinate of `min` is at most that of `max`.
    pub open spec fn wf(self) -> bool {
        self.min.x.raw <= self.max.x.raw && self.min.y.raw <= self.max.y.raw && self.min.z.raw
            <= self.max.z.raw
    }

    /// Whether a point lies in the box, faces included.
    pub open spec fn contains(self, p: Point3) -> bool {
        self.min.x.raw <= p.x.raw <= self.max.x.raw && self.min.y.raw <= p.y.raw <= self.max.y.raw
            && self.min.z.raw <= p.z.raw <= self.max.z.raw
    }

    /// Whether every point of `inner` lies in `self`.
    pub open spec fn encloses(self, inner: AABB) -> bool {
        self.min.x.raw <= inner.min.x.raw && self.min.y.raw <= inner.min.y.raw && self.min.z.raw
            <= inner.min.z.raw && inner.max.x.raw <= self.max.x.raw && inner.max.y.raw
            <= self.max.y.raw && inner.max.z.raw <= self.max.z.raw
    }

    /// The smallest box that holds both boxes.
    pub open spec fn union(box_a: AABB, box_b: AABB) -> AABB {
        AABB {
            min: Point3 {
                x: box_a.min.x.least(box_b.min.x),
                y: box_a.min.y.least(box_b.min.y),
                z: box_a.min.z.least(box_b.min.z),
            },
            max: Point3 {
                x: box_a.max.x.greatest(box_b.max.x),
                y: box_a.max.y.greatest(box_b.max.y),
                z: box_a.max.z.greatest(box_b.max.z),
            },
        }
    }

    /// Whether the ray is inside the box at the parameter `p / q`, and that
    /// parameter lies in `[t_min, t_max]`.
    pub open spec fn meets_at(self, ray: Ray, t_min: Scalar, t_max: Scalar, p: int, q: int) -> bool {
        &&& q > 0
        &&& t_min.raw * q <= p * SCALE
        &&& p * SCALE <= t_max.raw * q
        &&& in_slab(
            self.min.x.raw as int,
            self.max.x.raw as int,
            ray.origin.x.raw as int,
            ray.dir.x.raw as int,
            p,
            q,
        )
        &&& in_slab(
            self.min.y.raw as int,
            self.max.y.raw as int,
            ray.origin.y.raw as int,
            ray.dir.y.raw as int,
            p,
            q,
        )
        &&& in_slab(
            self.min.z.raw as int,
            self.max.z.raw as int,
            ray.origin.z.raw as int,
            ray.dir.z.raw as int,
            p,
            q,
        )
    }

    /// Whether the line of the ray passes through the box at some rational
    /// parameter in `[t_min, t_max]`.
    pub open spec fn meets(self, ray: Ray, t_min: Scalar, t_max: Scalar) -> bool {
        exists|p: int, q: int| self.meets_at(ray, t_min, t_max, p, q)
    }

    pub fn new(min: Point3, max: Point3) -> (r: AABB)
        ensures
            r == (AABB { min, max }),
    {
        AABB { min, max }
    }

    /// The smallest box that holds both `box_a` and `box_b`.
    pub fn surrounding_box(box_a: &AABB, box_b: &AABB) -> (r: AABB)
        ensures
            r == Self::union(*box_a, *box_b),
            r.encloses(*box_a),
            r.encloses(*box_b),
            box_a.wf() && box_b.wf() ==> r.wf(),
    {
        let min = Point3::new(
            box_a.min.x.least(box_b.min.x),
            box_a.min.y.least(box_b.min.y),
            box_a.min.z.least(box_b.min.z),
        );
        let max = Point3::new(
            box_a.max.x.greatest(box_b.max.x),
            box_a.max.y.greatest(box_b.max.y),
            box_a.max.z.greatest(box_b.max.z),
        );
        AABB { min, max }
    }

    /// The box around whichever of the two boxes are present.
    pub fn surrounding_option(box_a: Option<AABB>, box_b: Option<AABB>) -> (r: AABB)
        requires
            box_a.is_some() || box_b.is_some(),
        ensures
            box_a.is_some() && box_b.is_some() ==> r == Self::union(box_a.unwrap(), box_b.unwrap()),
            box_a.is_some() && box_b.is_none() ==> r == box_a.unwrap(),
            box_a.is_none() && box_b.is_some() ==> r == box_b.unwrap(),
    {
        match box_a {
            Some(a) => match box_b {
                Some(b) => Self::surrounding_box(&a, &b),
                None => a,
            },
            None => match box_b {
                Some(b) => b,
                None => box_a.unwrap(),
            },
        }
    }

    /// Whether the ray passes through the box at a parameter in
    /// `[t_min, t_max]`.
    pub fn hit(&self, ray: &Ray, t_min: Scalar, t_max: Scalar) -> (r: bool)
        ensures
            r == self.meets(*ray, t_min, t_max),
    {
        let lo = Frac { n: t_min.raw as i128, d: 1_000_000 };
        let hi = Frac { n: t_max.raw as i128, d: 1_000_000 };
        let x = clip(lo, hi, self.min.x.raw, self.max.x.raw, ray.origin.x.raw, ray.dir.x.raw);
        let (lo1, hi1) = match x {
            Some(b) => b,
            None => {
                assert forall|p: int, q: int| !self.meets_at(*ray, t_min, t_max, p, q) by {}
                return false;
            },
        };
        let y = clip(lo1, hi1, self.min.y.raw, self.max.y.raw, ray.origin.y.raw, ray.dir.y.raw);
        let (lo2, hi2) = match y {
            Some(b) => b,
            None => {
                assert forall|p: int, q: int| !self.meets_at(*ray, t_min, t_max, p, q) by {}
                return false;
            },
        };
        let z = clip(lo2, hi2, self.min.z.raw, self.max.z.raw, ray.origin.z.raw, ray.dir.z.raw);
        let (lo3, hi3) = match z {
            Some(b) => b,
            None => {
                assert forall|p: int, q: int| !self.meets_at(*ray, t_min, t_max, p, q) by {}
                return false;
            },
        };
        let empty = hi3.lt(&lo3);
        proof {
            assert forall|p: int, q: int| q > 0 implies (self.meets_at(*ray, t_min, t_max, p, q)
                <==> between(lo3, hi3, p, q)) by {
                assert(between(lo3, hi3, p, q) <==> between(lo2, hi2, p, q) && in_slab(
                    self.min.z.raw as int,
                    self.max.z.raw as int,
                    ray.origin.z.raw as int,
                    ray.dir.z.raw as int,
                    p,
                    q,
                ));
                assert(between(lo2, hi2, p, q) <==> between(lo1, hi1, p, q) && in_slab(
                    self.min.y.raw as int,
                    self.max.y.raw as int,
                    ray.origin.y.raw as int,
                    ray.dir.y.raw as int,
                    p,
                    q,
                ));
                assert(between(lo1, hi1, p, q) <==> between(lo, hi, p, q) && in_slab(
                    self.min.x.raw as int,
                    self.max.x.raw as int,
                    ray.origin.x.raw as int,
                    ray.dir.x.raw as int,
                    p,
                    q,
                ));
            }
            if empty {
                assert forall|p: int, q: int| !self.meets_at(*ray, t_min, t_max, p, q) by {
                    if q > 0 && between(lo3, hi3, p, q) {
                        lemma_frac_order(
                            lo3.n as int,
                            lo3.d as int,
                            p,
                            q,
                            hi3.n as int,
                            hi3.d as int,
                        );
                    }
                }
            } else {
                assert(between(lo3, hi3, lo3.n as int, lo3.d as int));
                assert(self.meets_at(*ray, t_min, t_max, lo3.n as int, lo3.d as int));
            }
        }
        !empty
    }
}

} // verus!
