use ray_tracing::aabb::AABB;
use ray_tracing::ray::Ray;
use ray_tracing::scalar::Scalar;
use ray_tracing::vec3::{Point3, Vec3};

fn s(raw: i64) -> Scalar {
    Scalar::new(raw)
}

fn p(x: i32, y: i32, z: i32) -> Point3 {
    Point3::new(Scalar::from_int(x), Scalar::from_int(y), Scalar::from_int(z))
}

fn d(x: i32, y: i32, z: i32) -> Vec3 {
    Vec3::new(Scalar::from_int(x), Scalar::from_int(y), Scalar::from_int(z))
}

fn unit_box() -> AABB {
    AABB::new(p(-1, -1, -1), p(1, 1, 1))
}

fn ray(origin: Point3, dir: Vec3) -> Ray {
    Ray::new(origin, dir, s(0))
}

#[test]
fn new_keeps_the_corners() {
    let b = AABB::new(p(1, 2, 3), p(4, 5, 6));
    assert_eq!(b.min, p(1, 2, 3));
    assert_eq!(b.max, p(4, 5, 6));
}

#[test]
fn surrounding_box_is_the_union() {
    let a = AABB::new(p(0, -5, 2), p(1, 1, 3));
    let b = AABB::new(p(-2, 0, 0), p(0, 4, 9));
    let u = AABB::surrounding_box(&a, &b);
    assert_eq!(u, AABB::new(p(-2, -5, 0), p(1, 4, 9)));
    assert_eq!(AABB::surrounding_box(&b, &a), u);
    assert_eq!(AABB::surrounding_box(&a, &a), a);
}

#[test]
fn surrounding_option_takes_what_is_there() {
    let a = AABB::new(p(0, 0, 0), p(1, 1, 1));
    let b = AABB::new(p(2, 2, 2), p(3, 3, 3));
    assert_eq!(AABB::surrounding_option(Some(a), None), a);
    assert_eq!(AABB::surrounding_option(None, Some(b)), b);
    assert_eq!(
        AABB::surrounding_option(Some(a), Some(b)),
        AABB::new(p(0, 0, 0), p(3, 3, 3))
    );
}

#[test]
fn ray_towards_the_box_hits() {
    let r = ray(p(-5, 0, 0), d(1, 0, 0));
    assert!(unit_box().hit(&r, s(0), Scalar::from_int(100)));
}

#[test]
fn ray_away_from_the_box_misses() {
    let r = ray(p(-5, 0, 0), d(-1, 0, 0));
    assert!(!unit_box().hit(&r, s(0), Scalar::from_int(100)));
}

#[test]
fn ray_from_inside_the_box_hits() {
    let r = ray(p(0, 0, 0), d(1, 2, 3));
    assert!(unit_box().hit(&r, s(0), Scalar::from_int(100)));
    assert!(unit_box().hit(&r, s(0), s(1)));
}

#[test]
fn ray_parallel_to_a_face_hits_when_between_the_faces() {
    let inside = ray(p(-5, 0, 0), d(1, 0, 0));
    assert!(unit_box().hit(&inside, s(0), Scalar::from_int(100)));
    let on_face = ray(p(-5, 1, 0), d(1, 0, 0));
    assert!(unit_box().hit(&on_face, s(0), Scalar::from_int(100)));
    let on_edge = ray(p(-5, 1, -1), d(1, 0, 0));
    assert!(unit_box().hit(&on_edge, s(0), Scalar::from_int(100)));
    let outside = ray(
        Point3::new(Scalar::from_int(-5), s(1_000_001), s(0)),
        d(1, 0, 0),
    );
    assert!(!unit_box().hit(&outside, s(0), Scalar::from_int(100)));
}

#[test]
fn the_range_of_the_parameter_counts() {
    let r = ray(p(-5, 0, 0), d(1, 0, 0));
    let b = unit_box();
    assert!(!b.hit(&r, s(0), s(3_999_999)));
    assert!(b.hit(&r, s(0), Scalar::from_int(4)));
    assert!(b.hit(&r, Scalar::from_int(6), Scalar::from_int(100)));
    assert!(!b.hit(&r, s(6_000_001), Scalar::from_int(100)));
    assert!(b.hit(&r, Scalar::from_int(5), Scalar::from_int(5)));
    assert!(!b.hit(&r, Scalar::from_int(6), Scalar::from_int(5)));
}

#[test]
fn ray_through_a_corner_hits() {
    let r = ray(p(-2, -2, -2), d(1, 1, 1));
    assert!(unit_box().hit(&r, s(0), Scalar::from_int(100)));
    let grazing = ray(p(-3, -1, -1), d(1, 0, 0));
    assert!(unit_box().hit(&grazing, s(0), Scalar::from_int(100)));
}

#[test]
fn ray_that_passes_beside_the_box_misses() {
    let r = ray(p(-5, 0, 0), d(1, 1, 0));
    assert!(!unit_box().hit(&r, s(0), Scalar::from_int(100)));
    let close = ray(p(-5, 0, 0), Vec3::new(s(4_000_000), s(1_000_001), s(0)));
    assert!(!unit_box().hit(&close, s(0), Scalar::from_int(100)));
    let touching = ray(p(-5, 0, 0), d(4, 1, 0));
    assert!(unit_box().hit(&touching, s(0), Scalar::from_int(100)));
}

#[test]
fn each_axis_narrows_the_same_interval() {
    // Along x the ray is in the slab for t in [4, 6], along y for t in
    // [7, 9]: each slab is met within the range, but never both at once.
    let b = AABB::new(p(-1, 7, -1), p(1, 9, 1));
    let r = ray(p(-5, 0, 0), d(1, 1, 0));
    assert!(!b.hit(&r, s(0), Scalar::from_int(100)));
}

#[test]
fn rays_with_negative_directions() {
    let r = ray(p(5, 5, 5), d(-1, -1, -1));
    assert!(unit_box().hit(&r, s(0), Scalar::from_int(100)));
    assert!(!unit_box().hit(&r, s(0), s(3_999_999)));
}

#[test]
fn extreme_coordinates_do_not_overflow() {
    let b = AABB::new(
        Point3::new(s(i64::MIN), s(i64::MIN), s(i64::MIN)),
        Point3::new(s(i64::MAX), s(i64::MAX), s(i64::MAX)),
    );
    let r = ray(
        Point3::new(s(i64::MAX), s(i64::MIN), s(0)),
        Vec3::new(s(i64::MIN), s(i64::MAX), s(1)),
    );
    assert!(b.hit(&r, s(i64::MIN), s(i64::MAX)));
    let thin = AABB::new(
        Point3::new(s(i64::MIN), s(i64::MIN), s(i64::MIN)),
        Point3::new(s(i64::MIN), s(i64::MAX), s(i64::MAX)),
    );
    let away = ray(
        Point3::new(s(i64::MAX), s(0), s(0)),
        Vec3::new(s(i64::MAX), s(0), s(0)),
    );
    assert!(!thin.hit(&away, s(0), s(i64::MAX)));
}
