//! The bounding volume hierarchy: a binary tree over the objects of a
//! scene in which every node knows a box around all that lies below it, so
//! that a ray that misses the box can skip the whole subtree.
use crate::aabb::AABB;
use crate::hittable::{HitRecord, Hittable, MovingSphere, Sphere};
use crate::ray::Ray;
use crate::sampling::draw_between;
use crate::scalar::Scalar;
use rand::rngs::StdRng;
use vstd::prelude::*;

verus! {

/// Any of the objects of this library that a ray can hit.
#[derive(Debug)]
pub enum AnyHittable {
    Sphere(Sphere),
    Moving(MovingSphere),
    Node(BvhNode),
}

/// An inner node of the tree: two children and the box around both.
#[derive(Debug)]
pub struct BvhNode {
    pub left: Box<AnyHittable>,
    pub right: Box<AnyHittable>,
    pub bounding_box: AABB,
}

/// Of two possible hits the one that comes first along the ray; the right
/// one where both come at the same parameter.
pub open spec fn closer<'a>(left: Option<HitRecord<'a>>, right: Option<HitRecord<'a>>) -> Option<
    HitRecord<'a>,
> {
    match (left, right) {
        (Some(l), Some(r)) => if l.t.raw < r.t.raw {
            Some(l)
        } else {
            Some(r)
        },
        (Some(l), None) => Some(l),
        (None, Some(r)) => Some(r),
        (None, None) => None,
    }
}

/// What a ray hits of an object.
pub open spec fn any_hit<'a>(h: &'a AnyHittable, ray: Ray, t_min: Scalar, t_max: Scalar) -> Option<
    HitRecord<'a>,
>
    decreases h,
{
    match h {
        AnyHittable::Sphere(s) => s.hit_at(ray, t_min, t_max),
        AnyHittable::Moving(s) => s.hit_at(ray, t_min, t_max),
        AnyHittable::Node(n) => node_hit(n, ray, t_min, t_max),
    }
}

/// What a ray hits below a node: nothing where it misses the box of the
/// node, and otherwise the closer of what it hits below either child.
pub open spec fn node_hit<'a>(n: &'a BvhNode, ray: Ray, t_min: Scalar, t_max: Scalar) -> Option<
    HitRecord<'a>,
>
    decreases n,
{
    if !n.bounding_box.meets(ray, t_min, t_max) {
        None
    } else {
        closer(any_hit(&*n.left, ray, t_min, t_max), any_hit(&*n.right, ray, t_min, t_max))
    }
}

/// The box of an object.
pub open spec fn any_bounds(h: &AnyHittable, t0: Scalar, t1: Scalar) -> AABB {
    match h {
        AnyHittable::Sphere(s) => s.bounds(t0, t1).unwrap(),
        AnyHittable::Moving(s) => s.bounds(t0, t1).unwrap(),
        AnyHittable::Node(n) => n.bounding_box,
    }
}

fn hit_any<'a>(h: &'a AnyHittable, ray: &Ray, t_min: Scalar, t_max: Scalar) -> (r: Option<
    HitRecord<'a>,
>)
    ensures
        r == any_hit(h, *ray, t_min, t_max),
    decreases h,
{
    match h {
        AnyHittable::Sphere(s) => s.hit(ray, t_min, t_max),
        AnyHittable::Moving(s) => s.hit(ray, t_min, t_max),
        AnyHittable::Node(n) => hit_node(n, ray, t_min, t_max),
    }
}

fn hit_node<'a>(n: &'a BvhNode, ray: &Ray, t_min: Scalar, t_max: Scalar) -> (r: Option<
    HitRecord<'a>,
>)
    ensures
        r == node_hit(n, *ray, t_min, t_max),
    decreases n,
{
    if !n.bounding_box.hit(ray, t_min, t_max) {
        return None;
    }
    let left_hit = hit_any(&*n.left, ray, t_min, t_max);
    let right_hit = hit_any(&*n.right, ray, t_min, t_max);
    match (left_hit, right_hit) {
        (Some(left_rec), Some(right_rec)) => {
            if left_rec.t.raw < right_rec.t.raw {
                Some(left_rec)
            } else {
                Some(right_rec)
            }
        },
        (Some(left_rec), None) => Some(left_rec),
        (None, Some(right_rec)) => Some(right_rec),
        (None, None) => None,
    }
}

impl Hittable for AnyHittable {
    open spec fn hit_at(&self, ray: Ray, t_min: Scalar, t_max: Scalar) -> Option<HitRecord> {
        any_hit(self, ray, t_min, t_max)
    }

    open spec fn bounds(&self, t0: Scalar, t1: Scalar) -> Option<AABB> {
        Some(any_bounds(self, t0, t1))
    }

    fn hit(&self, ray: &Ray, t_min: Scalar, t_max: Scalar) -> (r: Option<HitRecord>) {
        hit_any(self, ray, t_min, t_max)
    }

    fn bounding_box(&self, t0: Scalar, t1: Scalar) -> (r: Option<AABB>) {
        match self {
            AnyHittable::Sphere(s) => s.bounding_box(t0, t1),
            AnyHittable::Moving(s) => s.bounding_box(t0, t1),
            AnyHittable::Node(n) => Some(n.bounding_box),
        }
    }
}

impl Hittable for BvhNode {
    open spec fn hit_at(&self, ray: Ray, t_min: Scalar, t_max: Scalar) -> Option<HitRecord> {
        node_hit(self, ray, t_min, t_max)
    }

    open spec fn bounds(&self, t0: Scalar, t1: Scalar) -> Option<AABB> {
        Some(self.bounding_box)
    }

    fn hit(&self, ray: &Ray, t_min: Scalar, t_max: Scalar) -> (r: Option<HitRecord>) {
        hit_node(self, ray, t_min, t_max)
    }

    fn bounding_box(&self, t0: Scalar, t1: Scalar) -> (r: Option<AABB>) {
        Some(self.bounding_box)
    }
}

/// The number by which objects are ordered along an axis: the least
/// coordinate of their box on that axis.
pub open spec fn axis_key(h: &AnyHittable, axis: int, t0: Scalar, t1: Scalar) -> int {
    any_bounds(h, t0, t1).min.spec_axis(axis).raw as int
}

/// Whether the keys of a sequence of objects never fall from one object to
/// the next.
pub open spec fn ordered(s: Seq<AnyHittable>, axis: int, t0: Scalar, t1: Scalar) -> bool {
    forall|a: int, b: int|
        0 <= a < b < s.len() ==> axis_key(&s[a], axis, t0, t1) <= axis_key(&s[b], axis, t0, t1)
}

fn key_of(h: &AnyHittable, axis: usize, t0: Scalar, t1: Scalar) -> (r: Scalar)
    requires
        axis < 3,
    ensures
        r.raw == axis_key(h, axis as int, t0, t1),
{
    let around = h.bounding_box(t0, t1);
    around.unwrap().min.axis(axis)
}

/// Sorts the objects by their keys along an axis, smallest first, by
/// insertion.
#[verifier::rlimit(40)]
fn sort_by_axis(v: &mut Vec<AnyHittable>, axis: usize, t0: Scalar, t1: Scalar)
    requires
        axis < 3,
    ensures
        final(v)@.to_multiset() == old(v)@.to_multiset(),
        final(v)@.len() == old(v)@.len(),
        ordered(final(v)@, axis as int, t0, t1),
{
    if v.len() < 2 {
        return ;
    }
    let mut i: usize = 1;
    while i < v.len()
        invariant
            axis < 3,
            v@.to_multiset() == old(v)@.to_multiset(),
            v@.len() == old(v)@.len(),
            1 <= i <= v@.len(),
            ordered(v@.take(i as int), axis as int, t0, t1),
        decreases v@.len() - i,
    {
        let key = key_of(&v[i], axis, t0, t1);
        let mut j: usize = 0;
        while j < i && key_of(&v[j], axis, t0, t1).raw <= key.raw
            invariant
                axis < 3,
                j <= i < v@.len(),
                key.raw == axis_key(&v@[i as int], axis as int, t0, t1),
                forall|k: int| 0 <= k < j ==> axis_key(&v@[k], axis as int, t0, t1) <= key.raw,
            decreases i - j,
        {
            j += 1;
        }
        let ghost before = v@;
        let moved = v.remove(i);
        v.insert(j, moved);
        proof {
            vstd::seq_lib::to_multiset_remove(before, i as int);
            vstd::seq_lib::to_multiset_insert(before.remove(i as int), j as int, moved);
            assert(before.to_multiset().remove(before[i as int]).insert(moved)
                =~= before.to_multiset()) by {
                vstd::seq_lib::to_multiset_contains(before, moved);
                assert(before.contains(moved));
            }
            let old_prefix = before.take(i as int);
            let new_prefix = v@.take(i as int + 1);
            assert forall|a: int, b: int| 0 <= a < b < new_prefix.len() implies axis_key(
                &new_prefix[a],
                axis as int,
                t0,
                t1,
            ) <= axis_key(&new_prefix[b], axis as int, t0, t1) by {
                let ka = if a < j {
                    a
                } else if a == j {
                    i as int
                } else {
                    a - 1
                };
                let kb = if b < j {
                    b
                } else if b == j {
                    i as int
                } else {
                    b - 1
                };
                assert(new_prefix[a] == before[ka]);
                assert(new_prefix[b] == before[kb]);
                if ka < i {
                    assert(old_prefix[ka] == before[ka]);
                }
                if kb < i {
                    assert(old_prefix[kb] == before[kb]);
                }
                if j < i {
                    assert(old_prefix[j as int] == before[j as int]);
                }
            }
        }
        i += 1;
    }
    assert(v@.take(i as int) =~= v@);
}

/// Joining two sequences gives the same multiset as joining, in the other
/// order, two sequences with the same multisets.
proof fn lemma_join_multiset<A>(a1: Seq<A>, a2: Seq<A>, b1: Seq<A>, b2: Seq<A>)
    requires
        a1.to_multiset() == b1.to_multiset(),
        a2.to_multiset() == b2.to_multiset(),
    ensures
        (a1 + a2).to_multiset() == (b2 + b1).to_multiset(),
{
    vstd::seq_lib::lemma_multiset_commutative(a1, a2);
    vstd::seq_lib::lemma_multiset_commutative(b2, b1);
    assert(a1.to_multiset().add(a2.to_multiset()) =~= b2.to_multiset().add(b1.to_multiset()));
}

/// Whether, along an axis, no object of `lower` has a greater key than any
/// object of `upper`.
pub open spec fn keys_split(
    upper: Seq<AnyHittable>,
    lower: Seq<AnyHittable>,
    axis: int,
    t0: Scalar,
    t1: Scalar,
) -> bool {
    forall|i: int, j: int|
        0 <= i < upper.len() && 0 <= j < lower.len() ==> axis_key(&lower[j], axis, t0, t1)
            <= axis_key(&upper[i], axis, t0, t1)
}

/// Cutting an ordered sequence in two splits its keys.
proof fn lemma_cut_splits(sorted: Seq<AnyHittable>, at: int, axis: int, t0: Scalar, t1: Scalar)
    requires
        ordered(sorted, axis, t0, t1),
        0 <= at <= sorted.len(),
    ensures
        keys_split(
            sorted.subrange(at, sorted.len() as int),
            sorted.subrange(0, at),
            axis,
            t0,
            t1,
        ),
{
    let upper = sorted.subrange(at, sorted.len() as int);
    let lower = sorted.subrange(0, at);
    assert forall|i: int, j: int| 0 <= i < upper.len() && 0 <= j < lower.len() implies axis_key(
        &lower[j],
        axis,
        t0,
        t1,
    ) <= axis_key(&upper[i], axis, t0, t1) by {
        assert(lower[j] == sorted[j]);
        assert(upper[i] == sorted[at + i]);
    }
}

/// A split of keys holds of the objects, in whatever order they stand.
proof fn lemma_split_permuted(
    upper: Seq<AnyHittable>,
    lower: Seq<AnyHittable>,
    upper2: Seq<AnyHittable>,
    lower2: Seq<AnyHittable>,
    axis: int,
    t0: Scalar,
    t1: Scalar,
)
    requires
        keys_split(upper, lower, axis, t0, t1),
        upper2.to_multiset() == upper.to_multiset(),
        lower2.to_multiset() == lower.to_multiset(),
    ensures
        keys_split(upper2, lower2, axis, t0, t1),
{
    assert forall|i: int, j: int| 0 <= i < upper2.len() && 0 <= j < lower2.len() implies axis_key(
        &lower2[j],
        axis,
        t0,
        t1,
    ) <= axis_key(&upper2[i], axis, t0, t1) by {
        vstd::seq_lib::to_multiset_contains(upper2, upper2[i]);
        vstd::seq_lib::to_multiset_contains(upper, upper2[i]);
        vstd::seq_lib::to_multiset_contains(lower2, lower2[j]);
        vstd::seq_lib::to_multiset_contains(lower, lower2[j]);
        assert(upper2.contains(upper2[i]));
        assert(lower2.contains(lower2[j]));
        let a = choose|a: int| 0 <= a < upper.len() && upper[a] == upper2[i];
        let b = choose|b: int| 0 <= b < lower.len() && lower[b] == lower2[j];
        assert(axis_key(&lower[b], axis, t0, t1) <= axis_key(&upper[a], axis, t0, t1));
    }
}

impl BvhNode {
    /// Whether this node is the root of a tree over `n` objects that has
    /// the shape and the boxes that `make_tree` gives it. Two objects hang
    /// side by side below one node. Of three, one hangs to the left and a
    /// node over the other two to the right. Four or more are split by
    /// their number: a node over the lower half of them, rounded down,
    /// hangs to the right, and a node over the rest to the left. The box of
    /// every node is the union of the boxes of its two children.
    pub open spec fn built_over(&self, n: nat, t0: Scalar, t1: Scalar) -> bool
        decreases n,
    {
        &&& self.bounding_box == AABB::union(
            any_bounds(&*self.left, t0, t1),
            any_bounds(&*self.right, t0, t1),
        )
        &&& if n <= 2 {
            n == 2
        } else if n == 3 {
            match &*self.right {
                AnyHittable::Node(r) => r.built_over(2, t0, t1),
                _ => false,
            }
        } else {
            match (&*self.left, &*self.right) {
                (AnyHittable::Node(l), AnyHittable::Node(r)) => l.built_over(
                    (n - n / 2) as nat,
                    t0,
                    t1,
                ) && r.built_over(n / 2, t0, t1),
                _ => false,
            }
        }
    }

    /// The `n` objects over which a tree of that shape stands, from left to
    /// right.
    pub open spec fn items(&self, n: nat) -> Seq<AnyHittable>
        decreases n,
    {
        if n <= 2 {
            seq![*self.left, *self.right]
        } else if n == 3 {
            match &*self.right {
                AnyHittable::Node(r) => seq![*self.left] + r.items(2),
                _ => seq![*self.left],
            }
        } else {
            match (&*self.left, &*self.right) {
                (AnyHittable::Node(l), AnyHittable::Node(r)) => l.items((n - n / 2) as nat)
                    + r.items(n / 2),
                _ => Seq::empty(),
            }
        }
    }

    /// The objects that hang to the left of the root of such a tree.
    pub open spec fn left_items(&self, n: nat) -> Seq<AnyHittable> {
        if n <= 3 {
            seq![*self.left]
        } else {
            match &*self.left {
                AnyHittable::Node(l) => l.items((n - n / 2) as nat),
                _ => Seq::empty(),
            }
        }
    }

    /// The objects that hang to the right of the root of such a tree.
    pub open spec fn right_items(&self, n: nat) -> Seq<AnyHittable> {
        if n <= 2 {
            seq![*self.right]
        } else {
            match &*self.right {
                AnyHittable::Node(r) => r.items(
                    if n == 3 {
                        2
                    } else {
                        n / 2
                    },
                ),
                _ => Seq::empty(),
            }
        }
    }

    /// Whether at every node of such a tree the objects were divided by
    /// their keys along one of the three axes: no object to the right of
    /// the node has a greater key than any object to its left.
    pub open spec fn divided_by_keys(&self, n: nat, t0: Scalar, t1: Scalar) -> bool
        decreases n,
    {
        &&& exists|axis: int|
            0 <= axis < 3 && #[trigger] keys_split(
                self.left_items(n),
                self.right_items(n),
                axis,
                t0,
                t1,
            )
        &&& if n <= 2 {
            true
        } else if n == 3 {
            match &*self.right {
                AnyHittable::Node(r) => r.divided_by_keys(2, t0, t1),
                _ => true,
            }
        } else {
            match (&*self.left, &*self.right) {
                (AnyHittable::Node(l), AnyHittable::Node(r)) => l.divided_by_keys(
                    (n - n / 2) as nat,
                    t0,
                    t1,
                ) && r.divided_by_keys(n / 2, t0, t1),
                _ => true,
            }
        }
    }

    /// Builds the tree over the given objects, of which there must be at
    /// least two. At every level the objects are sorted along an axis drawn
    /// at random and then divided by their number, the upper part going to
    /// the left.
    pub fn make_tree(hittables: Vec<AnyHittable>, t0: Scalar, t1: Scalar, rng: &mut StdRng) -> (r:
        BvhNode)
        requires
            hittables@.len() >= 2,
        ensures
            r.built_over(hittables@.len(), t0, t1),
            r.items(hittables@.len()).to_multiset() == hittables@.to_multiset(),
            r.divided_by_keys(hittables@.len(), t0, t1),
        decreases hittables@.len(),
    {
        let mut hittables = hittables;
        let ghost given = hittables@;
        let dim: usize = draw_between(rng, 0, 3) as usize;
        sort_by_axis(&mut hittables, dim, t0, t1);
        let ghost sorted = hittables@;
        let n: usize = hittables.len();
        if n == 2 {
            let left = hittables.pop().unwrap();
            let right = hittables.pop().unwrap();
            let bounding_box = AABB::surrounding_option(
                left.bounding_box(t0, t1),
                right.bounding_box(t0, t1),
            );
            let node = BvhNode { left: Box::new(left), right: Box::new(right), bounding_box };
            proof {
                assert(sorted =~= seq![right] + seq![left]);
                assert(node.items(2) =~= seq![left] + seq![right]);
                lemma_join_multiset(seq![left], seq![right], seq![left], seq![right]);
                lemma_cut_splits(sorted, 1, dim as int, t0, t1);
                assert(sorted.subrange(1, 2) =~= node.left_items(2));
                assert(sorted.subrange(0, 1) =~= node.right_items(2));
                assert(keys_split(node.left_items(2), node.right_items(2), dim as int, t0, t1));
            }
            node
        } else if n == 3 {
            let left = hittables.pop().unwrap();
            let ghost rest = hittables@;
            let right = Self::make_tree(hittables, t0, t1, rng);
            let bounding_box = AABB::surrounding_option(
                left.bounding_box(t0, t1),
                right.bounding_box(t0, t1),
            );
            let node = BvhNode {
                left: Box::new(left),
                right: Box::new(AnyHittable::Node(right)),
                bounding_box,
            };
            proof {
                assert(sorted =~= rest + seq![left]);
                assert(node.items(3) =~= seq![left] + right.items(2));
                lemma_join_multiset(seq![left], right.items(2), seq![left], rest);
                lemma_cut_splits(sorted, 2, dim as int, t0, t1);
                assert(sorted.subrange(2, 3) =~= seq![left]);
                assert(sorted.subrange(0, 2) =~= rest);
                lemma_split_permuted(
                    seq![left],
                    rest,
                    node.left_items(3),
                    node.right_items(3),
                    dim as int,
                    t0,
                    t1,
                );
                assert(keys_split(node.left_items(3), node.right_items(3), dim as int, t0, t1));
            }
            node
        } else {
            let mid: usize = n / 2;
            let left_hittables = hittables.split_off(mid);
            let right_hittables = hittables;
            let ghost upper = left_hittables@;
            let ghost lower = right_hittables@;
            let left = Self::make_tree(left_hittables, t0, t1, rng);
            let right = Self::make_tree(right_hittables, t0, t1, rng);
            let bounding_box = AABB::surrounding_option(
                left.bounding_box(t0, t1),
                right.bounding_box(t0, t1),
            );
            let node = BvhNode {
                left: Box::new(AnyHittable::Node(left)),
                right: Box::new(AnyHittable::Node(right)),
                bounding_box,
            };
            proof {
                assert(sorted =~= lower + upper);
                let k = n as nat;
                assert(node.items(k) =~= left.items((k - k / 2) as nat) + right.items(k / 2));
                lemma_join_multiset(
                    left.items((k - k / 2) as nat),
                    right.items(k / 2),
                    upper,
                    lower,
                );
                lemma_cut_splits(sorted, mid as int, dim as int, t0, t1);
                lemma_split_permuted(
                    upper,
                    lower,
                    node.left_items(k),
                    node.right_items(k),
                    dim as int,
                    t0,
                    t1,
                );
                assert(keys_split(node.left_items(k), node.right_items(k), dim as int, t0, t1));
            }
            node
        }
    }
}

} // verus!
