use rand::rngs::StdRng;
use rand::{Rng, SeedableRng};
use ray_tracing::aabb::AABB;
use ray_tracing::hittable::{Hittable, MovingSphere, Sphere};
use ray_tracing::material::{AnyMaterial, Dielectric, Metal};
use ray_tracing::ray::Ray;
use ray_tracing::scalar::Scalar;
use ray_tracing::vec3::{Color, Point3, Vec3};

const ONE: i64 = 1_000_000;

fn s(raw: i64) -> Scalar {
    Scalar::new(raw)
}

fn p(x: i64, y: i64, z: i64) -> Point3 {
    Point3::new(s(x), s(y), s(z))
}

fn v(x: i64, y: i64, z: i64) -> Vec3 {
    Vec3::new(s(x), s(y), s(z))
}

fn glass() -> AnyMaterial {
    AnyMaterial::Dielectric(Dielectric::new(s(1_500_000)))
}

fn metal() -> AnyMaterial {
    AnyMaterial::Metal(Metal::new(Color::new(s(ONE), s(ONE), s(ONE)), s(0)))
}

fn far() -> Scalar {
    s(i64::MAX)
}

fn near() -> Scalar {
    s(1_000)
}

#[test]
fn ray_at_walks_along_the_ray() {
    let r = Ray::new(p(ONE, 2 * ONE, 3 * ONE), v(ONE, 0, -ONE), s(7));
    assert_eq!(r.at(s(0)), p(ONE, 2 * ONE, 3 * ONE));
    assert_eq!(r.at(s(2_500_000)), p(3_500_000, 2 * ONE, 500_000));
    assert_eq!(r.at(s(-ONE)), p(0, 2 * ONE, 4 * ONE));
    assert_eq!(r.time, s(7));
}

#[test]
fn a_ray_hits_the_near_side_of_a_sphere() {
    let sphere = Sphere::new(p(0, 0, 0), s(ONE), glass());
    let r = Ray::new(p(0, 0, -5 * ONE), v(0, 0, ONE), s(0));
    let rec = sphere.hit(&r, near(), far()).unwrap();
    assert_eq!(rec.t, s(4 * ONE));
    assert_eq!(rec.point, p(0, 0, -ONE));
    assert_eq!(rec.normal, v(0, 0, -ONE));
    assert!(rec.front_face);
    assert!(matches!(rec.material, AnyMaterial::Dielectric(_)));
    assert_eq!(rec.u, s(0));
    assert_eq!(rec.v, s(0));
}

#[test]
fn a_ray_from_inside_hits_the_far_side() {
    let sphere = Sphere::new(p(0, 0, 0), s(ONE), metal());
    let r = Ray::new(p(0, 0, 0), v(0, 0, ONE), s(0));
    let rec = sphere.hit(&r, near(), far()).unwrap();
    assert_eq!(rec.t, s(ONE));
    assert_eq!(rec.point, p(0, 0, ONE));
    assert_eq!(rec.normal, v(0, 0, -ONE));
    assert!(!rec.front_face);
    assert!(matches!(rec.material, AnyMaterial::Metal(_)));
}

#[test]
fn an_oblique_hit() {
    let sphere = Sphere::new(p(0, 0, 0), s(2 * ONE), glass());
    let r = Ray::new(p(ONE, 0, -5 * ONE), v(0, 0, ONE), s(0));
    let rec = sphere.hit(&r, near(), far()).unwrap();
    assert_eq!(rec.t, s(3_267_950));
    assert_eq!(rec.point, p(ONE, 0, -1_732_050));
    assert_eq!(rec.normal, v(500_000, 0, -866_025));
    assert!(rec.front_face);
}

#[test]
fn a_hit_off_the_axes() {
    let sphere = Sphere::new(p(ONE, 2 * ONE, 3 * ONE), s(500_000), glass());
    let r = Ray::new(p(0, 0, 0), v(ONE, 2 * ONE, 3 * ONE), s(0));
    let rec = sphere.hit(&r, near(), far()).unwrap();
    assert_eq!(rec.t, s(866_369));
    assert_eq!(rec.point, p(866_369, 1_732_738, 2_599_107));
    assert_eq!(rec.normal, v(-267_262, -534_524, -801_786));
    assert!(rec.front_face);
}

#[test]
fn a_ray_that_passes_beside_the_sphere_misses() {
    let sphere = Sphere::new(p(0, 0, 0), s(ONE), glass());
    let r = Ray::new(p(0, 2 * ONE, -5 * ONE), v(0, 0, ONE), s(0));
    assert!(sphere.hit(&r, near(), far()).is_none());
}

#[test]
fn the_bounds_of_the_parameter_are_strict() {
    let sphere = Sphere::new(p(0, 0, 0), s(ONE), glass());
    let r = Ray::new(p(0, 0, -5 * ONE), v(0, 0, ONE), s(0));
    // The roots are 4 and 6.
    assert!(sphere.hit(&r, near(), s(4 * ONE)).is_none());
    assert_eq!(sphere.hit(&r, s(4 * ONE), far()).unwrap().t, s(6 * ONE));
    assert!(sphere.hit(&r, s(4 * ONE), s(6 * ONE)).is_none());
    assert_eq!(sphere.hit(&r, s(3_999_999), s(4_000_001)).unwrap().t, s(4 * ONE));
    assert!(sphere.hit(&r, s(6 * ONE), far()).is_none());
}

#[test]
fn a_longer_direction_shortens_the_parameter() {
    let sphere = Sphere::new(p(0, 0, 0), s(ONE), glass());
    let r = Ray::new(p(0, 0, -5 * ONE), v(0, 0, 2 * ONE), s(0));
    let rec = sphere.hit(&r, near(), far()).unwrap();
    assert_eq!(rec.t, s(2 * ONE));
    assert_eq!(rec.point, p(0, 0, -ONE));
}

#[test]
fn a_ray_without_direction_misses() {
    let sphere = Sphere::new(p(0, 0, 0), s(ONE), glass());
    let r = Ray::new(p(0, 0, -5 * ONE), v(0, 0, 0), s(0));
    assert!(sphere.hit(&r, near(), far()).is_none());
}

#[test]
fn the_ground_is_hit_from_above() {
    let ground = Sphere::new(p(0, -1000 * ONE, 0), s(1000 * ONE), glass());
    let r = Ray::new(p(0, ONE, 0), v(0, -ONE, 0), s(0));
    let rec = ground.hit(&r, near(), far()).unwrap();
    assert_eq!(rec.t, s(ONE));
    assert_eq!(rec.point, p(0, 0, 0));
    assert_eq!(rec.normal, v(0, ONE, 0));
    assert!(rec.front_face);
}

#[test]
fn hit_points_lie_on_the_sphere() {
    let mut rng = StdRng::seed_from_u64(11);
    for radius in [500_000i64, ONE, 3 * ONE, 40 * ONE] {
        let sphere = Sphere::new(p(0, 0, 0), s(radius), glass());
        let mut hits = 0;
        for _ in 0..400 {
            let origin = p(
                rng.gen_range(-100 * ONE, 100 * ONE),
                rng.gen_range(-100 * ONE, 100 * ONE),
                rng.gen_range(-100 * ONE, 100 * ONE),
            );
            let target = p(
                rng.gen_range(-radius, radius),
                rng.gen_range(-radius, radius),
                rng.gen_range(-radius, radius),
            );
            let dir = target.minus(origin);
            let r = Ray::new(origin, dir, s(0));
            if let Some(rec) = sphere.hit(&r, near(), far()) {
                hits += 1;
                let x = rec.point.x.raw as f64 / 1e6;
                let y = rec.point.y.raw as f64 / 1e6;
                let z = rec.point.z.raw as f64 / 1e6;
                let distance = (x * x + y * y + z * z).sqrt();
                let r = radius as f64 / 1e6;
                assert!(
                    (distance - r).abs() <= 1e-3 * r.max(1.0),
                    "distance {} for radius {}",
                    distance,
                    r
                );
                assert!(rec.t.raw > 1_000);
            }
        }
        assert!(hits > 100);
    }
}

#[test]
fn the_box_of_a_sphere_reaches_one_radius_each_way() {
    let sphere = Sphere::new(p(ONE, 2 * ONE, 3 * ONE), s(500_000), glass());
    assert_eq!(
        sphere.bounding_box(s(0), s(ONE)),
        Some(AABB::new(
            p(500_000, 1_500_000, 2_500_000),
            p(1_500_000, 2_500_000, 3_500_000)
        ))
    );
}

#[test]
fn a_boxed_material_makes_the_same_sphere() {
    let a = Sphere::new(p(0, 0, 0), s(ONE), metal());
    let b = Sphere::new_boxed(p(0, 0, 0), s(ONE), Box::new(metal()));
    let r = Ray::new(p(0, 0, -5 * ONE), v(0, 0, ONE), s(0));
    let ra = a.hit(&r, near(), far()).unwrap();
    let rb = b.hit(&r, near(), far()).unwrap();
    assert_eq!(ra.t, rb.t);
    assert_eq!(ra.point, rb.point);
    assert_eq!(ra.normal, rb.normal);
    assert!(matches!(rb.material, AnyMaterial::Metal(_)));
    assert_eq!(a.bounding_box(s(0), s(0)), b.bounding_box(s(0), s(0)));
}

#[test]
fn the_centre_of_a_moving_sphere() {
    let m = MovingSphere::new(p(0, 0, 0), p(0, ONE, 0), s(0), s(ONE), s(ONE), glass());
    assert_eq!(m.center(s(0)), p(0, 0, 0));
    assert_eq!(m.center(s(250_000)), p(0, 250_000, 0));
    assert_eq!(m.center(s(ONE)), p(0, ONE, 0));
    assert_eq!(m.center(s(2 * ONE)), p(0, 2 * ONE, 0));
}

#[test]
fn a_moving_sphere_is_hit_where_it_is_at_the_time_of_the_ray() {
    let m = MovingSphere::new(p(0, 0, 0), p(0, 2 * ONE, 0), s(0), s(ONE), s(ONE), glass());
    let early = Ray::new(p(0, ONE, -5 * ONE), v(0, 0, ONE), s(0));
    let rec = m.hit(&early, near(), far()).unwrap();
    assert_eq!(rec.t, s(5 * ONE));
    let middle = Ray::new(p(0, ONE, -5 * ONE), v(0, 0, ONE), s(500_000));
    let rec = m.hit(&middle, near(), far()).unwrap();
    assert_eq!(rec.t, s(4 * ONE));
    assert_eq!(rec.point, p(0, ONE, -ONE));
    assert_eq!(rec.normal, v(0, 0, -ONE));
    assert!(rec.front_face);
    let late = Ray::new(p(0, -ONE, -5 * ONE), v(0, 0, ONE), s(ONE));
    assert!(m.hit(&late, near(), far()).is_none());
}

#[test]
fn the_box_of_a_moving_sphere_covers_the_whole_move() {
    let m = MovingSphere::new(p(0, 0, 0), p(0, 2 * ONE, 0), s(0), s(ONE), s(ONE), glass());
    assert_eq!(
        m.bounding_box(s(0), s(ONE)),
        Some(AABB::new(p(-ONE, -ONE, -ONE), p(ONE, 3 * ONE, ONE)))
    );
    assert_eq!(
        m.bounding_box(s(0), s(500_000)),
        Some(AABB::new(p(-ONE, -ONE, -ONE), p(ONE, 2 * ONE, ONE)))
    );
    let boxed = MovingSphere::new_boxed(
        p(0, 0, 0),
        p(0, 2 * ONE, 0),
        s(0),
        s(ONE),
        s(ONE),
        Box::new(glass()),
    );
    assert_eq!(boxed.bounding_box(s(0), s(ONE)), m.bounding_box(s(0), s(ONE)));
}
