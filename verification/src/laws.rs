//! Laws of hits, boxes and trees.
//!
//! The chief of them connects the tree with the plain search through all
//! objects. The tree prunes by boxes, the plain search does not. The two
//! agree on how far the closest hit is whenever the boxes do their duty
//! for the ray at hand: every object that the ray hits has a box that the
//! ray meets. Rounding can break that duty for a ray that grazes a sphere.
use crate::aabb::{in_slab, AABB};
use crate::bvh::{any_bounds, any_hit, closer, node_hit, AnyHittable, BvhNode};
use crate::hittable::{ball_box, sphere_hit, sphere_record, HitRecord};
use crate::material::AnyMaterial;
use crate::ray::Ray;
use crate::reflection::within;
use crate::scalar::{Scalar, SCALE};
use crate::vec3::Point3;
use crate::world::scan;
use vstd::prelude::*;

verus! {

/// The parameter of a hit, if there is a hit.
pub open spec fn hit_t(h: Option<HitRecord>) -> Option<int> {
    match h {
        None => None,
        Some(rec) => Some(rec.t.raw as int),
    }
}

/// The smaller of two parameters, where `None` stands for no hit.
pub open spec fn least_t(a: Option<int>, b: Option<int>) -> Option<int> {
    match (a, b) {
        (Some(x), Some(y)) => if x < y {
            Some(x)
        } else {
            Some(y)
        },
        (Some(x), None) => Some(x),
        (None, Some(y)) => Some(y),
        (None, None) => None,
    }
}

/// The parameter of the closest hit of a ray on a sequence of objects.
pub open spec fn scan_t(items: Seq<AnyHittable>, ray: Ray, t_min: Scalar, t_max: Scalar) -> Option<
    int,
> {
    hit_t(scan(items, ray, t_min, t_max))
}

/// Whether the boxes do their duty for this ray: the ray meets the box of
/// every object of the sequence that it hits.
pub open spec fn covered(
    items: Seq<AnyHittable>,
    t0: Scalar,
    t1: Scalar,
    ray: Ray,
    t_min: Scalar,
    t_max: Scalar,
) -> bool {
    forall|i: int|
        0 <= i < items.len() && (#[trigger] any_hit(&items[i], ray, t_min, t_max)).is_some()
            ==> any_bounds(&items[i], t0, t1).meets(ray, t_min, t_max)
}

/// Whether a hit, if there is one, comes at a parameter strictly between
/// the two limits.
pub open spec fn in_range(h: Option<HitRecord>, t_min: Scalar, t_max: Scalar) -> bool {
    match h {
        None => true,
        Some(rec) => t_min.raw < rec.t.raw && rec.t.raw < t_max.raw,
    }
}

/// Every hit on an object, a tree included, comes at a parameter strictly
/// between the two limits that were asked for.
pub proof fn lemma_hit_in_range(h: &AnyHittable, ray: Ray, t_min: Scalar, t_max: Scalar)
    ensures
        in_range(any_hit(h, ray, t_min, t_max), t_min, t_max),
    decreases h,
{
    reveal(sphere_hit);
    match h {
        AnyHittable::Node(n) => {
            lemma_hit_in_range(&*n.left, ray, t_min, t_max);
            lemma_hit_in_range(&*n.right, ray, t_min, t_max);
        },
        _ => {},
    }
}

/// The closest hit on a sequence of objects comes at a parameter strictly
/// between the two limits that were asked for.
pub proof fn lemma_scan_in_range(items: Seq<AnyHittable>, ray: Ray, t_min: Scalar, t_max: Scalar)
    ensures
        in_range(scan(items, ray, t_min, t_max), t_min, t_max),
    decreases items.len(),
{
    if items.len() > 0 {
        lemma_scan_in_range(items.drop_last(), ray, t_min, t_max);
        lemma_hit_in_range(&items.last(), ray, t_min, t_max);
    }
}

/// The largest size of a component, a million, for which the law of the
/// opposing normal is stated.
pub open spec fn span() -> int {
    1_000_000_000_000
}

/// A product of two numbers of at most a million in size is not clamped,
/// and the product with the negated number is at most the negated
/// product.
proof fn lemma_negated_product(a: Scalar, b: Scalar)
    requires
        -span() <= a.raw <= span(),
        -span() <= b.raw <= span(),
    ensures
        a.times(b).raw == (a.raw * b.raw) / (SCALE as int),
        a.times(b.negated()).raw <= -a.times(b).raw,
        -span() * 1_000_000 <= a.times(b).raw <= span() * 1_000_000,
        -span() * 1_000_000 <= a.times(b.negated()).raw <= span() * 1_000_000,
{
    let x = a.raw * b.raw;
    let s = SCALE as int;
    assert(-span() * span() <= x <= span() * span()) by (nonlinear_arith)
        requires
            x == a.raw * b.raw,
            -span() <= a.raw <= span(),
            -span() <= b.raw <= span(),
    ;
    assert(a.raw * (-b.raw) == -x) by (nonlinear_arith)
        requires
            x == a.raw * b.raw,
    ;
    vstd::arithmetic::div_mod::lemma_fundamental_div_mod(x, s);
    vstd::arithmetic::div_mod::lemma_fundamental_div_mod(-x, s);
    let f = x / s;
    let g = (-x) / s;
    assert(s * f == f * s && s * g == g * s) by (nonlinear_arith);
    assert(g <= -f) by (nonlinear_arith)
        requires
            f * s <= x,
            g * s <= -x,
            -x < (g + 1) * s,
            x < (f + 1) * s,
            s > 0,
    ;
    assert(-span() * 1_000_000 <= f <= span() * 1_000_000) by (nonlinear_arith)
        requires
            f * s <= x,
            x < (f + 1) * s,
            -span() * span() <= x <= span() * span(),
            s == 1_000_000,
            span() == 1_000_000_000_000,
    ;
    assert(-span() * 1_000_000 <= g <= span() * 1_000_000) by (nonlinear_arith)
        requires
            g * s <= -x,
            -x < (g + 1) * s,
            -span() * span() <= x <= span() * span(),
            s == 1_000_000,
            span() == 1_000_000_000_000,
    ;
}

/// The normal in the record of a hit on a sphere opposes the ray: their
/// dot product is not positive. This is stated for rays and spheres whose
/// direction and outward normal have components of at most a million in
/// size.
pub proof fn lemma_normal_opposes_ray(
    center: Point3,
    radius: Scalar,
    material: &AnyMaterial,
    ray: Ray,
    t: Scalar,
)
    requires
        within(ray.dir, span()),
        within(ray.at(t).minus(center).divided(radius), span()),
    ensures
        ray.dir.dot(sphere_record(center, radius, material, ray, t).normal).raw <= 0,
{
    let outward = ray.at(t).minus(center).divided(radius);
    let rec = sphere_record(center, radius, material, ray, t);
    lemma_negated_product(ray.dir.x, outward.x);
    lemma_negated_product(ray.dir.y, outward.y);
    lemma_negated_product(ray.dir.z, outward.z);
    if rec.front_face {
        assert(rec.normal == outward);
    } else {
        assert(rec.normal == outward.negated());
        assert(ray.dir.dot(outward).raw >= 0);
    }
}

/// The box of a sphere with a radius that is not negative is well formed.
pub proof fn lemma_ball_box_wf(center: Point3, radius: Scalar)
    requires
        radius.raw >= 0,
    ensures
        ball_box(center, radius).wf(),
{
    reveal(ball_box);
}

/// The union of two well-formed boxes is well formed.
pub proof fn lemma_union_wf(a: AABB, b: AABB)
    requires
        a.wf(),
        b.wf(),
    ensures
        AABB::union(a, b).wf(),
{
}

/// A ray that passes through a slab passes through every wider slab.
proof fn lemma_slab_widens(lo: int, hi: int, lo2: int, hi2: int, o: int, d: int, p: int, q: int)
    requires
        q > 0,
        lo2 <= lo,
        hi <= hi2,
        in_slab(lo, hi, o, d, p, q),
    ensures
        in_slab(lo2, hi2, o, d, p, q),
{
    assert(lo2 * q <= lo * q) by (nonlinear_arith)
        requires
            lo2 <= lo,
            q > 0,
    ;
    assert(hi * q <= hi2 * q) by (nonlinear_arith)
        requires
            hi <= hi2,
            q > 0,
    ;
}

/// A ray that meets a box meets every box that encloses it.
pub proof fn lemma_meets_enclosing(
    outer: AABB,
    inner: AABB,
    ray: Ray,
    t_min: Scalar,
    t_max: Scalar,
)
    requires
        outer.encloses(inner),
        inner.meets(ray, t_min, t_max),
    ensures
        outer.meets(ray, t_min, t_max),
{
    let (p, q) = choose|p: int, q: int| inner.meets_at(ray, t_min, t_max, p, q);
    lemma_slab_widens(
        inner.min.x.raw as int,
        inner.max.x.raw as int,
        outer.min.x.raw as int,
        outer.max.x.raw as int,
        ray.origin.x.raw as int,
        ray.dir.x.raw as int,
        p,
        q,
    );
    lemma_slab_widens(
        inner.min.y.raw as int,
        inner.max.y.raw as int,
        outer.min.y.raw as int,
        outer.max.y.raw as int,
        ray.origin.y.raw as int,
        ray.dir.y.raw as int,
        p,
        q,
    );
    lemma_slab_widens(
        inner.min.z.raw as int,
        inner.max.z.raw as int,
        outer.min.z.raw as int,
        outer.max.z.raw as int,
        ray.origin.z.raw as int,
        ray.dir.z.raw as int,
        p,
        q,
    );
    assert(outer.meets_at(ray, t_min, t_max, p, q));
}

/// The union of two boxes encloses both, and whatever encloses both
/// encloses the union.
pub proof fn lemma_union_is_least(a: AABB, b: AABB, other: AABB)
    ensures
        AABB::union(a, b).encloses(a),
        AABB::union(a, b).encloses(b),
        other.encloses(a) && other.encloses(b) ==> other.encloses(AABB::union(a, b)),
{
}

/// The closer of two hits comes at the smaller of their parameters.
pub proof fn lemma_closer_t(a: Option<HitRecord>, b: Option<HitRecord>)
    ensures
        hit_t(closer(a, b)) == least_t(hit_t(a), hit_t(b)),
{
}

/// The closest hit on two sequences joined is the closer of the closest
/// hits on either.
#[verifier::rlimit(40)]
pub proof fn lemma_scan_join(
    a: Seq<AnyHittable>,
    b: Seq<AnyHittable>,
    ray: Ray,
    t_min: Scalar,
    t_max: Scalar,
)
    ensures
        scan_t(a + b, ray, t_min, t_max) == least_t(
            scan_t(a, ray, t_min, t_max),
            scan_t(b, ray, t_min, t_max),
        ),
    decreases b.len(),
{
    if b.len() == 0 {
        assert(a + b =~= a);
    } else {
        assert((a + b).drop_last() =~= a + b.drop_last());
        assert((a + b).last() == b.last());
        lemma_scan_join(a, b.drop_last(), ray, t_min, t_max);
    }
}

/// The closest hit on a single object is the hit on that object.
pub proof fn lemma_scan_one(h: AnyHittable, ray: Ray, t_min: Scalar, t_max: Scalar)
    ensures
        scan_t(seq![h], ray, t_min, t_max) == hit_t(any_hit(&h, ray, t_min, t_max)),
{
    let s = seq![h];
    assert(s.drop_last() =~= Seq::<AnyHittable>::empty());
    assert(s.last() == h);
    assert(scan(s.drop_last(), ray, t_min, t_max).is_none());
}

/// The least of a sequence of parameters, where `None` stands for no hit.
pub open spec fn least_of(ts: Seq<Option<int>>) -> Option<int>
    decreases ts.len(),
{
    if ts.len() == 0 {
        None
    } else {
        least_t(ts.last(), least_of(ts.drop_last()))
    }
}

/// The parameters at which a ray hits each object of a sequence.
pub open spec fn hit_ts(items: Seq<AnyHittable>, ray: Ray, t_min: Scalar, t_max: Scalar) -> Seq<
    Option<int>,
> {
    Seq::new(items.len(), |i: int| hit_t(any_hit(&items[i], ray, t_min, t_max)))
}

/// `least_of` is `None` exactly where every entry is, and otherwise an
/// entry that no other entry undercuts.
pub proof fn lemma_least_of(ts: Seq<Option<int>>)
    ensures
        match least_of(ts) {
            None => forall|i: int| 0 <= i < ts.len() ==> (#[trigger] ts[i]).is_none(),
            Some(t) => (exists|i: int| 0 <= i < ts.len() && #[trigger] ts[i] == Some(t))
                && forall|i: int|
                0 <= i < ts.len() && (#[trigger] ts[i]).is_some() ==> t <= ts[i].unwrap(),
        },
    decreases ts.len(),
{
    if ts.len() > 0 {
        let rest = ts.drop_last();
        lemma_least_of(rest);
        assert forall|i: int| 0 <= i < rest.len() implies rest[i] == ts[i] by {}
        match least_of(ts) {
            None => {
                assert forall|i: int| 0 <= i < ts.len() implies (#[trigger] ts[i]).is_none() by {
                    if i < rest.len() {
                        assert(rest[i].is_none());
                    }
                }
            },
            Some(t) => {
                if ts.last() == Some(t) {
                    assert(ts[ts.len() - 1] == Some(t));
                } else {
                    let i = choose|i: int| 0 <= i < rest.len() && #[trigger] rest[i] == Some(t);
                    assert(ts[i] == Some(t));
                }
                assert forall|i: int| 0 <= i < ts.len() && (#[trigger] ts[i]).is_some() implies t
                    <= ts[i].unwrap() by {
                    if i < rest.len() {
                        assert(rest[i].is_some());
                    }
                }
            },
        }
    }
}

/// The plain search finds the least of the parameters at which the ray
/// hits the objects.
pub proof fn lemma_scan_as_least(items: Seq<AnyHittable>, ray: Ray, t_min: Scalar, t_max: Scalar)
    ensures
        scan_t(items, ray, t_min, t_max) == least_of(hit_ts(items, ray, t_min, t_max)),
    decreases items.len(),
{
    let ts = hit_ts(items, ray, t_min, t_max);
    if items.len() > 0 {
        lemma_scan_as_least(items.drop_last(), ray, t_min, t_max);
        assert(ts.drop_last() =~= hit_ts(items.drop_last(), ray, t_min, t_max));
        assert(ts.last() == hit_t(any_hit(&items.last(), ray, t_min, t_max)));
    }
}

/// Two sequences with the same entries, in whatever order and number, have
/// the same least entry.
pub proof fn lemma_least_of_same_entries(a: Seq<Option<int>>, b: Seq<Option<int>>)
    requires
        forall|i: int| 0 <= i < a.len() ==> b.contains(#[trigger] a[i]),
        forall|i: int| 0 <= i < b.len() ==> a.contains(#[trigger] b[i]),
    ensures
        least_of(a) == least_of(b),
{
    lemma_least_of(a);
    lemma_least_of(b);
    match least_of(a) {
        None => {
            if least_of(b).is_some() {
                let j = choose|j: int| 0 <= j < b.len() && #[trigger] b[j] == least_of(b);
                assert(a.contains(b[j]));
            }
        },
        Some(x) => {
            let i = choose|i: int| 0 <= i < a.len() && #[trigger] a[i] == Some(x);
            assert(b.contains(a[i]));
            let j = choose|j: int| 0 <= j < b.len() && b[j] == a[i];
            assert(b[j].is_some());
            match least_of(b) {
                None => {},
                Some(y) => {
                    let j2 = choose|j2: int| 0 <= j2 < b.len() && #[trigger] b[j2] == Some(y);
                    assert(a.contains(b[j2]));
                    let i2 = choose|i2: int| 0 <= i2 < a.len() && a[i2] == b[j2];
                    assert(a[i2].is_some());
                },
            }
        },
    }
}

/// The order of the objects does not change how far the closest hit is.
pub proof fn lemma_scan_permuted(
    a: Seq<AnyHittable>,
    b: Seq<AnyHittable>,
    ray: Ray,
    t_min: Scalar,
    t_max: Scalar,
)
    requires
        a.to_multiset() == b.to_multiset(),
    ensures
        scan_t(a, ray, t_min, t_max) == scan_t(b, ray, t_min, t_max),
{
    lemma_scan_as_least(a, ray, t_min, t_max);
    lemma_scan_as_least(b, ray, t_min, t_max);
    let ta = hit_ts(a, ray, t_min, t_max);
    let tb = hit_ts(b, ray, t_min, t_max);
    assert forall|i: int| 0 <= i < ta.len() implies tb.contains(#[trigger] ta[i]) by {
        vstd::seq_lib::to_multiset_contains(a, a[i]);
        vstd::seq_lib::to_multiset_contains(b, a[i]);
        assert(a.contains(a[i]));
        let j = choose|j: int| 0 <= j < b.len() && b[j] == a[i];
        assert(tb[j] == ta[i]);
    }
    assert forall|i: int| 0 <= i < tb.len() implies ta.contains(#[trigger] tb[i]) by {
        vstd::seq_lib::to_multiset_contains(a, b[i]);
        vstd::seq_lib::to_multiset_contains(b, b[i]);
        assert(b.contains(b[i]));
        let j = choose|j: int| 0 <= j < a.len() && a[j] == b[i];
        assert(ta[j] == tb[i]);
    }
    lemma_least_of_same_entries(ta, tb);
}

/// A tree of the shape that `make_tree` gives stands over as many objects
/// as it was built over, and the box of its root encloses the box of each.
pub proof fn lemma_root_box_encloses(node: BvhNode, n: nat, t0: Scalar, t1: Scalar)
    requires
        node.built_over(n, t0, t1),
    ensures
        node.items(n).len() == n,
        forall|i: int|
            0 <= i < n ==> node.bounding_box.encloses(
                any_bounds(&#[trigger] node.items(n)[i], t0, t1),
            ),
    decreases n,
{
    let left = *node.left;
    let right = *node.right;
    lemma_union_is_least(any_bounds(&left, t0, t1), any_bounds(&right, t0, t1), node.bounding_box);
    if n <= 2 {
    } else if n == 3 {
        match right {
            AnyHittable::Node(r) => {
                lemma_root_box_encloses(r, 2, t0, t1);
                assert forall|i: int| 0 <= i < n implies node.bounding_box.encloses(
                    any_bounds(&#[trigger] node.items(n)[i], t0, t1),
                ) by {
                    if i > 0 {
                        assert(node.items(n)[i] == r.items(2)[i - 1]);
                        assert(r.bounding_box.encloses(any_bounds(&r.items(2)[i - 1], t0, t1)));
                    }
                }
            },
            _ => {},
        }
    } else {
        match (left, right) {
            (AnyHittable::Node(l), AnyHittable::Node(r)) => {
                let nl = (n - n / 2) as nat;
                let nr = n / 2;
                lemma_root_box_encloses(l, nl, t0, t1);
                lemma_root_box_encloses(r, nr, t0, t1);
                assert forall|i: int| 0 <= i < n implies node.bounding_box.encloses(
                    any_bounds(&#[trigger] node.items(n)[i], t0, t1),
                ) by {
                    if i < nl {
                        assert(node.items(n)[i] == l.items(nl)[i]);
                        assert(l.bounding_box.encloses(any_bounds(&l.items(nl)[i], t0, t1)));
                    } else {
                        assert(node.items(n)[i] == r.items(nr)[i - nl]);
                        assert(r.bounding_box.encloses(any_bounds(&r.items(nr)[i - nl], t0, t1)));
                    }
                }
            },
            _ => {},
        }
    }
}

/// Where the boxes of the objects are well formed, so is the box of the
/// root of a tree that stands over them.
pub proof fn lemma_tree_boxes_wf(node: BvhNode, n: nat, t0: Scalar, t1: Scalar)
    requires
        node.built_over(n, t0, t1),
        forall|i: int|
            0 <= i < node.items(n).len() ==> any_bounds(&#[trigger] node.items(n)[i], t0, t1).wf(),
    ensures
        node.bounding_box.wf(),
    decreases n,
{
    let left = *node.left;
    let right = *node.right;
    let items = node.items(n);
    lemma_root_box_encloses(node, n, t0, t1);
    if n <= 2 {
        assert(items[0] == left);
        assert(items[1] == right);
    } else if n == 3 {
        match right {
            AnyHittable::Node(r) => {
                lemma_root_box_encloses(r, 2, t0, t1);
                assert(items[0] == left);
                assert forall|i: int| 0 <= i < r.items(2).len() implies any_bounds(
                    &#[trigger] r.items(2)[i],
                    t0,
                    t1,
                ).wf() by {
                    assert(items[i + 1] == r.items(2)[i]);
                }
                lemma_tree_boxes_wf(r, 2, t0, t1);
            },
            _ => {},
        }
    } else {
        match (left, right) {
            (AnyHittable::Node(l), AnyHittable::Node(r)) => {
                let nl = (n - n / 2) as nat;
                let nr = n / 2;
                lemma_root_box_encloses(l, nl, t0, t1);
                lemma_root_box_encloses(r, nr, t0, t1);
                assert forall|i: int| 0 <= i < l.items(nl).len() implies any_bounds(
                    &#[trigger] l.items(nl)[i],
                    t0,
                    t1,
                ).wf() by {
                    assert(items[i] == l.items(nl)[i]);
                }
                assert forall|i: int| 0 <= i < r.items(nr).len() implies any_bounds(
                    &#[trigger] r.items(nr)[i],
                    t0,
                    t1,
                ).wf() by {
                    assert(items[i + nl] == r.items(nr)[i]);
                }
                lemma_tree_boxes_wf(l, nl, t0, t1);
                lemma_tree_boxes_wf(r, nr, t0, t1);
            },
            _ => {},
        }
    }
}

/// A ray that hits none of the objects of a sequence has no closest hit.
pub proof fn lemma_scan_of_misses(items: Seq<AnyHittable>, ray: Ray, t_min: Scalar, t_max: Scalar)
    requires
        forall|i: int|
            0 <= i < items.len() ==> (#[trigger] any_hit(&items[i], ray, t_min, t_max)).is_none(),
    ensures
        scan_t(items, ray, t_min, t_max).is_none(),
{
    lemma_scan_as_least(items, ray, t_min, t_max);
    let ts = hit_ts(items, ray, t_min, t_max);
    lemma_least_of(ts);
    if least_of(ts).is_some() {
        let i = choose|i: int| 0 <= i < ts.len() && #[trigger] ts[i] == least_of(ts);
        assert(any_hit(&items[i], ray, t_min, t_max).is_none());
    }
}

/// Where the boxes do their duty, a ray that misses the box of the root
/// hits nothing of what the tree stands over.
pub proof fn lemma_missed_root(
    node: BvhNode,
    n: nat,
    t0: Scalar,
    t1: Scalar,
    ray: Ray,
    t_min: Scalar,
    t_max: Scalar,
)
    requires
        node.built_over(n, t0, t1),
        covered(node.items(n), t0, t1, ray, t_min, t_max),
        !node.bounding_box.meets(ray, t_min, t_max),
    ensures
        scan_t(node.items(n), ray, t_min, t_max).is_none(),
{
    lemma_root_box_encloses(node, n, t0, t1);
    let items = node.items(n);
    assert forall|i: int| 0 <= i < items.len() implies (#[trigger] any_hit(
        &items[i],
        ray,
        t_min,
        t_max,
    )).is_none() by {
        if any_hit(&items[i], ray, t_min, t_max).is_some() {
            lemma_meets_enclosing(
                node.bounding_box,
                any_bounds(&items[i], t0, t1),
                ray,
                t_min,
                t_max,
            );
        }
    }
    lemma_scan_of_misses(items, ray, t_min, t_max);
}

/// Where the boxes do their duty for a sequence of objects, they do it for
/// every stretch of the sequence.
pub proof fn lemma_covered_stretch(
    whole: Seq<AnyHittable>,
    from: int,
    to: int,
    t0: Scalar,
    t1: Scalar,
    ray: Ray,
    t_min: Scalar,
    t_max: Scalar,
)
    requires
        0 <= from <= to <= whole.len(),
        covered(whole, t0, t1, ray, t_min, t_max),
    ensures
        covered(whole.subrange(from, to), t0, t1, ray, t_min, t_max),
{
    let part = whole.subrange(from, to);
    assert forall|i: int|
        0 <= i < part.len() && (#[trigger] any_hit(&part[i], ray, t_min, t_max)).is_some() implies any_bounds(
        &part[i],
        t0,
        t1,
    ).meets(ray, t_min, t_max) by {
        assert(part[i] == whole[from + i]);
        assert(any_hit(&whole[from + i], ray, t_min, t_max).is_some());
    }
}

/// Where the boxes do their duty for a ray, the tree finds a hit as far
/// along the ray as the closest hit on any of the objects over which it
/// stands, and finds none where the ray hits none of them.
#[verifier::rlimit(40)]
pub proof fn lemma_tree_finds_closest(
    node: BvhNode,
    n: nat,
    t0: Scalar,
    t1: Scalar,
    ray: Ray,
    t_min: Scalar,
    t_max: Scalar,
)
    requires
        node.built_over(n, t0, t1),
        covered(node.items(n), t0, t1, ray, t_min, t_max),
    ensures
        hit_t(node_hit(&node, ray, t_min, t_max)) == scan_t(node.items(n), ray, t_min, t_max),
    decreases n,
{
    if !node.bounding_box.meets(ray, t_min, t_max) {
        lemma_missed_root(node, n, t0, t1, ray, t_min, t_max);
    } else {
        let left = *node.left;
        let right = *node.right;
        let items = node.items(n);
        lemma_root_box_encloses(node, n, t0, t1);
        lemma_closer_t(any_hit(&left, ray, t_min, t_max), any_hit(&right, ray, t_min, t_max));
        if n <= 2 {
            assert(items =~= seq![left] + seq![right]);
            lemma_scan_join(seq![left], seq![right], ray, t_min, t_max);
            lemma_scan_one(left, ray, t_min, t_max);
            lemma_scan_one(right, ray, t_min, t_max);
        } else if n == 3 {
            match right {
                AnyHittable::Node(r) => {
                    lemma_root_box_encloses(r, 2, t0, t1);
                    assert(items =~= seq![left] + r.items(2));
                    assert(items.subrange(1, 3) =~= r.items(2));
                    lemma_covered_stretch(items, 1, 3, t0, t1, ray, t_min, t_max);
                    lemma_tree_finds_closest(r, 2, t0, t1, ray, t_min, t_max);
                    lemma_scan_join(seq![left], r.items(2), ray, t_min, t_max);
                    lemma_scan_one(left, ray, t_min, t_max);
                },
                _ => {},
            }
        } else {
            match (left, right) {
                (AnyHittable::Node(l), AnyHittable::Node(r)) => {
                    let nl = (n - n / 2) as nat;
                    let nr = n / 2;
                    lemma_root_box_encloses(l, nl, t0, t1);
                    lemma_root_box_encloses(r, nr, t0, t1);
                    assert(items =~= l.items(nl) + r.items(nr));
                    assert(items.subrange(0, nl as int) =~= l.items(nl));
                    assert(items.subrange(nl as int, n as int) =~= r.items(nr));
                    lemma_covered_stretch(items, 0, nl as int, t0, t1, ray, t_min, t_max);
                    lemma_covered_stretch(items, nl as int, n as int, t0, t1, ray, t_min, t_max);
                    lemma_tree_finds_closest(l, nl, t0, t1, ray, t_min, t_max);
                    lemma_tree_finds_closest(r, nr, t0, t1, ray, t_min, t_max);
                    lemma_scan_join(l.items(nl), r.items(nr), ray, t_min, t_max);
                },
                _ => {},
            }
        }
    }
}

/// A tree that was built over the objects of a scene, in whatever order,
/// finds a hit as far along a ray as the plain search through the scene
/// does, and none where the plain search finds none, provided that the ray
/// meets the box of every object of the scene that it hits.
pub proof fn lemma_tree_matches_scan(
    node: BvhNode,
    scene: Seq<AnyHittable>,
    t0: Scalar,
    t1: Scalar,
    ray: Ray,
    t_min: Scalar,
    t_max: Scalar,
)
    requires
        node.built_over(scene.len(), t0, t1),
        node.items(scene.len()).to_multiset() == scene.to_multiset(),
        covered(scene, t0, t1, ray, t_min, t_max),
    ensures
        hit_t(node_hit(&node, ray, t_min, t_max)) == scan_t(scene, ray, t_min, t_max),
{
    let items = node.items(scene.len());
    assert forall|i: int|
        0 <= i < items.len() && (#[trigger] any_hit(&items[i], ray, t_min, t_max)).is_some() implies any_bounds(
        &items[i],
        t0,
        t1,
    ).meets(ray, t_min, t_max) by {
        vstd::seq_lib::to_multiset_contains(items, items[i]);
        vstd::seq_lib::to_multiset_contains(scene, items[i]);
        assert(items.contains(items[i]));
        let j = choose|j: int| 0 <= j < scene.len() && scene[j] == items[i];
        assert(any_hit(&scene[j], ray, t_min, t_max).is_some());
    }
    lemma_tree_finds_closest(node, scene.len(), t0, t1, ray, t_min, t_max);
    lemma_scan_permuted(items, scene, ray, t_min, t_max);
}

} // verus!
