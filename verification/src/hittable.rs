//! Things that a ray can hit, and the record of a hit.
use crate::aabb::AABB;
use crate::material::AnyMaterial;
use crate::ray::Ray;
use crate::scalar::Scalar;
use crate::vec3::{Point3, Vec3};
use vstd::prelude::*;

verus! {

/// What is known of the place where a ray met a surface.
#[derive(Clone, Copy, Debug)]
pub struct HitRecord<'a> {
    /// Where the ray met the surface.
    pub point: Point3,
    /// The normal of the surface there, turned against the ray.
    pub normal: Vec3,
    /// The parameter of the ray at which it met the surface.
    pub t: Scalar,
    /// Whether the ray came from outside.
    pub front_face: bool,
    /// The material of the surface.
    pub material: &'a AnyMaterial,
    /// Surface coordinates of the point.
    pub u: Scalar,
    pub v: Scalar,
}

/// The two parameters at which the line of a ray crosses a sphere, the
/// smaller first: the roots of `a t^2 + 2 half_b t + c = 0`. `None` where
/// the discriminant is negative and the line misses the sphere.
pub open spec fn sphere_roots(center: Point3, radius: Scalar, ray: Ray) -> Option<(Scalar, Scalar)> {
    let oc = ray.origin.minus(center);
    let a = ray.dir.length_squared();
    let half_b = oc.dot(ray.dir);
    let c = oc.length_squared().minus(radius.times(radius));
    let discriminant = half_b.times(half_b).minus(a.times(c));
    if discriminant.raw < 0 {
        None
    } else {
        let root = discriminant.root();
        Some((half_b.negated().minus(root).over(a), half_b.negated().plus(root).over(a)))
    }
}

/// The first of the two roots that lies strictly between `t_min` and
/// `t_max`.
pub open spec fn first_root_within(
    roots: Option<(Scalar, Scalar)>,
    t_min: Scalar,
    t_max: Scalar,
) -> Option<Scalar> {
    match roots {
        None => None,
        Some((near, far)) => if t_min.raw < near.raw && near.raw < t_max.raw {
            Some(near)
        } else if t_min.raw < far.raw && far.raw < t_max.raw {
            Some(far)
        } else {
            None
        },
    }
}

/// The record of a ray meeting a sphere at the parameter `t`. The normal
/// points away from the centre where the ray comes from outside, and
/// towards it otherwise, so that it always opposes the ray.
pub open spec fn sphere_record<'a>(
    center: Point3,
    radius: Scalar,
    material: &'a AnyMaterial,
    ray: Ray,
    t: Scalar,
) -> HitRecord<'a> {
    let point = ray.at(t);
    let outward = point.minus(center).divided(radius);
    let front_face = ray.dir.dot(outward).raw < 0;
    HitRecord {
        point,
        normal: if front_face {
            outward
        } else {
            outward.negated()
        },
        t,
        front_face,
        material,
        u: Scalar { raw: 0 },
        v: Scalar { raw: 0 },
    }
}

/// What a ray hits of a sphere between `t_min` and `t_max`.
#[verifier::opaque]
pub open spec fn sphere_hit<'a>(
    center: Point3,
    radius: Scalar,
    material: &'a AnyMaterial,
    ray: Ray,
    t_min: Scalar,
    t_max: Scalar,
) -> Option<HitRecord<'a>> {
    match first_root_within(sphere_roots(center, radius, ray), t_min, t_max) {
        None => None,
        Some(t) => Some(sphere_record(center, radius, material, ray, t)),
    }
}

/// The box that reaches one radius from the centre along every axis.
#[verifier::opaque]
pub open spec fn ball_box(center: Point3, radius: Scalar) -> AABB {
    AABB {
        min: Point3 {
            x: center.x.minus(radius),
            y: center.y.minus(radius),
            z: center.z.minus(radius),
        },
        max: Point3 { x: center.x.plus(radius), y: center.y.plus(radius), z: center.z.plus(radius) },
    }
}

fn record_at<'a>(
    center: Point3,
    radius: Scalar,
    material: &'a AnyMaterial,
    ray: &Ray,
    t: Scalar,
) -> (r: HitRecord<'a>)
    ensures
        r == sphere_record(center, radius, material, *ray, t),
{
    let point = ray.at(t);
    let outward = point.minus(center).divided(radius);
    let front_face = ray.dir.dot(outward).raw < 0;
    let normal = if front_face {
        outward
    } else {
        outward.negated()
    };
    HitRecord { point, normal, t, front_face, material, u: Scalar::new(0), v: Scalar::new(0) }
}

fn hit_ball<'a>(
    center: Point3,
    radius: Scalar,
    material: &'a AnyMaterial,
    ray: &Ray,
    t_min: Scalar,
    t_max: Scalar,
) -> (r: Option<HitRecord<'a>>)
    ensures
        r == sphere_hit(center, radius, material, *ray, t_min, t_max),
{
    reveal(sphere_hit);
    let oc = ray.origin.minus(center);
    let a = ray.dir.length_squared();
    let half_b = oc.dot(ray.dir);
    let c = oc.length_squared().minus(radius.times(radius));
    let discriminant = half_b.times(half_b).minus(a.times(c));
    if discriminant.raw < 0 {
        return None;
    }
    let root = discriminant.root();
    let t = half_b.negated().minus(root).over(a);
    if t.raw > t_min.raw && t.raw < t_max.raw {
        return Some(record_at(center, radius, material, ray, t));
    }
    let t = half_b.negated().plus(root).over(a);
    if t.raw > t_min.raw && t.raw < t_max.raw {
        return Some(record_at(center, radius, material, ray, t));
    }
    None
}

fn box_around(center: Point3, radius: Scalar) -> (r: AABB)
    ensures
        r == ball_box(center, radius),
        radius.raw >= 0 ==> r.wf(),
{
    reveal(ball_box);
    AABB {
        min: Point3::new(center.x.minus(radius), center.y.minus(radius), center.z.minus(radius)),
        max: Point3::new(center.x.plus(radius), center.y.plus(radius), center.z.plus(radius)),
    }
}

/// Something that a ray can hit.
pub trait Hittable {
    /// The hit of the ray on this object at a parameter strictly between
    /// `t_min` and `t_max`, if there is one.
    spec fn hit_at(&self, ray: Ray, t_min: Scalar, t_max: Scalar) -> Option<HitRecord>;

    /// A box that holds the object during the whole interval `[t0, t1]`.
    spec fn bounds(&self, t0: Scalar, t1: Scalar) -> Option<AABB>;

    fn hit(&self, ray: &Ray, t_min: Scalar, t_max: Scalar) -> (r: Option<HitRecord>)
        ensures
            r == self.hit_at(*ray, t_min, t_max),
    ;

    fn bounding_box(&self, t0: Scalar, t1: Scalar) -> (r: Option<AABB>)
        ensures
            r == self.bounds(t0, t1),
    ;
}

/// A sphere at rest.
#[derive(Debug)]
pub struct Sphere {
    center: Point3,
    radius: Scalar,
    material: Box<AnyMaterial>,
}

/// A sphere whose centre moves on a straight line at constant speed: it is
/// at `center0` at the time `t0` and at `center1` at the time `t1`.
#[derive(Debug)]
pub struct MovingSphere {
    center0: Point3,
    center1: Point3,
    t0: Scalar,
    t1: Scalar,
    radius: Scalar,
    material: Box<AnyMaterial>,
}

impl Sphere {
    pub closed spec fn spec_center(&self) -> Point3 {
        self.center
    }

    pub closed spec fn spec_radius(&self) -> Scalar {
        self.radius
    }

    pub closed spec fn spec_material(&self) -> &AnyMaterial {
        &*self.material
    }

    pub fn new(center: Point3, radius: Scalar, material: AnyMaterial) -> (r: Sphere)
        ensures
            r.spec_center() == center,
            r.spec_radius() == radius,
            *r.spec_material() == material,
    {
        Sphere { center, radius, material: Box::new(material) }
    }

    pub fn new_boxed(center: Point3, radius: Scalar, material: Box<AnyMaterial>) -> (r: Sphere)
        ensures
            r.spec_center() == center,
            r.spec_radius() == radius,
            *r.spec_material() == *material,
    {
        Sphere { center, radius, material }
    }
}

impl Hittable for Sphere {
    open spec fn hit_at(&self, ray: Ray, t_min: Scalar, t_max: Scalar) -> Option<HitRecord> {
        sphere_hit(self.spec_center(), self.spec_radius(), self.spec_material(), ray, t_min, t_max)
    }

    open spec fn bounds(&self, t0: Scalar, t1: Scalar) -> Option<AABB> {
        Some(ball_box(self.spec_center(), self.spec_radius()))
    }

    fn hit(&self, ray: &Ray, t_min: Scalar, t_max: Scalar) -> (r: Option<HitRecord>) {
        hit_ball(self.center, self.radius, &*self.material, ray, t_min, t_max)
    }

    fn bounding_box(&self, t0: Scalar, t1: Scalar) -> (r: Option<AABB>) {
        Some(box_around(self.center, self.radius))
    }
}

impl MovingSphere {
    pub closed spec fn spec_center0(&self) -> Point3 {
        self.center0
    }

    pub closed spec fn spec_center1(&self) -> Point3 {
        self.center1
    }

    pub closed spec fn spec_t0(&self) -> Scalar {
        self.t0
    }

    pub closed spec fn spec_t1(&self) -> Scalar {
        self.t1
    }

    pub closed spec fn spec_radius(&self) -> Scalar {
        self.radius
    }

    pub closed spec fn spec_material(&self) -> &AnyMaterial {
        &*self.material
    }

    /// Where the centre is at the time `t`: on the line through the two
    /// given centres, as far along it as `t` is between `t0` and `t1`.
    #[verifier::opaque]
    pub open spec fn spec_center(&self, t: Scalar) -> Point3 {
        self.spec_center0().offset(
            self.spec_center1().minus(self.spec_center0()).scaled(
                t.minus(self.spec_t0()).over(self.spec_t1().minus(self.spec_t0())),
            ),
        )
    }

    pub fn new(
        center0: Point3,
        center1: Point3,
        t0: Scalar,
        t1: Scalar,
        radius: Scalar,
        material: AnyMaterial,
    ) -> (r: MovingSphere)
        ensures
            r.spec_center0() == center0,
            r.spec_center1() == center1,
            r.spec_t0() == t0,
            r.spec_t1() == t1,
            r.spec_radius() == radius,
            *r.spec_material() == material,
    {
        MovingSphere { center0, center1, t0, t1, radius, material: Box::new(material) }
    }

    pub fn new_boxed(
        center0: Point3,
        center1: Point3,
        t0: Scalar,
        t1: Scalar,
        radius: Scalar,
        material: Box<AnyMaterial>,
    ) -> (r: MovingSphere)
        ensures
            r.spec_center0() == center0,
            r.spec_center1() == center1,
            r.spec_t0() == t0,
            r.spec_t1() == t1,
            r.spec_radius() == radius,
            *r.spec_material() == *material,
    {
        MovingSphere { center0, center1, t0, t1, radius, material }
    }

    #[verifier::when_used_as_spec(spec_center)]
    pub fn center(&self, t: Scalar) -> (r: Point3)
        ensures
            r == self.spec_center(t),
    {
        reveal(MovingSphere::spec_center);
        self.center0.offset(
            self.center1.minus(self.center0).scaled(t.minus(self.t0).over(self.t1.minus(self.t0))),
        )
    }
}

impl Hittable for MovingSphere {
    open spec fn hit_at(&self, ray: Ray, t_min: Scalar, t_max: Scalar) -> Option<HitRecord> {
        sphere_hit(
            self.center(ray.time),
            self.spec_radius(),
            self.spec_material(),
            ray,
            t_min,
            t_max,
        )
    }

    open spec fn bounds(&self, t0: Scalar, t1: Scalar) -> Option<AABB> {
        Some(
            AABB::union(
                ball_box(self.center(t0), self.spec_radius()),
                ball_box(self.center(t1), self.spec_radius()),
            ),
        )
    }

    fn hit(&self, ray: &Ray, t_min: Scalar, t_max: Scalar) -> (r: Option<HitRecord>) {
        hit_ball(self.center(ray.time), self.radius, &*self.material, ray, t_min, t_max)
    }

    fn bounding_box(&self, t0: Scalar, t1: Scalar) -> (r: Option<AABB>) {
        let box0 = box_around(self.center(t0), self.radius);
        let box1 = box_around(self.center(t1), self.radius);
        Some(AABB::surrounding_box(&box0, &box1))
    }
}

} // verus!
