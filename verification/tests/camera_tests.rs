use rand::rngs::StdRng;
use rand::SeedableRng;
use ray_tracing::camera::{Camera, CameraSettings};
use ray_tracing::scalar::Scalar;
use ray_tracing::vec3::{Point3, Vec3};

const ONE: i64 = 1_000_000;

fn s(raw: i64) -> Scalar {
    Scalar::new(raw)
}

fn p(x: i64, y: i64, z: i64) -> Point3 {
    Point3::new(s(x), s(y), s(z))
}

fn v(x: i64, y: i64, z: i64) -> Vec3 {
    Vec3::new(s(x), s(y), s(z))
}

/// A camera on the z axis that looks at the origin with a field of view
/// of ninety degrees.
fn plain(aperture: i64, focus_dist: i64) -> CameraSettings {
    CameraSettings {
        look_from: p(0, 0, ONE),
        look_at: p(0, 0, 0),
        vup: v(0, ONE, 0),
        tan_half_vfov: s(ONE),
        aperture: s(aperture),
        focus_dist: s(focus_dist),
        t0: s(0),
        t1: s(ONE),
    }
}

#[test]
fn the_frame_of_a_plain_camera() {
    let camera = Camera::new(&plain(0, ONE), s(2 * ONE));
    assert_eq!(camera.origin, p(0, 0, ONE));
    assert_eq!(camera.u, v(ONE, 0, 0));
    assert_eq!(camera.v, v(0, ONE, 0));
    assert_eq!(camera.horizontal, v(4 * ONE, 0, 0));
    assert_eq!(camera.vertical, v(0, 2 * ONE, 0));
    assert_eq!(camera.lower_left_corner, p(-2 * ONE, -ONE, 0));
    assert_eq!(camera.lens_radius, s(0));
    assert_eq!(camera.t0, s(0));
    assert_eq!(camera.t1, s(ONE));
}

#[test]
fn the_viewport_lies_at_the_focus_distance() {
    let camera = Camera::new(&plain(ONE, 2 * ONE), s(2 * ONE));
    assert_eq!(camera.horizontal, v(8 * ONE, 0, 0));
    assert_eq!(camera.vertical, v(0, 4 * ONE, 0));
    assert_eq!(camera.lower_left_corner, p(-4 * ONE, -2 * ONE, -ONE));
    assert_eq!(camera.lens_radius, s(500_000));
}

#[test]
fn rays_through_the_viewport() {
    let camera = Camera::new(&plain(0, ONE), s(2 * ONE));
    let lens = v(300_000, 400_000, 0);
    let middle = camera.ray_through(s(500_000), s(500_000), lens, s(7));
    assert_eq!(middle.origin, p(0, 0, ONE));
    assert_eq!(middle.dir, v(0, 0, -ONE));
    assert_eq!(middle.time, s(7));
    let corner = camera.ray_through(s(0), s(0), lens, s(7));
    assert_eq!(corner.dir, v(-2 * ONE, -ONE, -ONE));
    let opposite = camera.ray_through(s(ONE), s(ONE), lens, s(7));
    assert_eq!(opposite.dir, v(2 * ONE, ONE, -ONE));
}

#[test]
fn a_wide_lens_moves_the_origin_but_not_the_target() {
    let camera = Camera::new(&plain(ONE, 2 * ONE), s(2 * ONE));
    let ray = camera.ray_through(s(500_000), s(500_000), v(600_000, -800_000, 0), s(9));
    assert_eq!(ray.origin, p(300_000, -400_000, ONE));
    assert_eq!(ray.dir, v(-300_000, 400_000, -2 * ONE));
    // Origin plus direction is the point of the focal plane.
    assert_eq!(ray.origin.offset(ray.dir), p(0, 0, -ONE));
}

#[test]
fn without_aperture_every_ray_starts_at_the_camera() {
    let mut rng = StdRng::seed_from_u64(1);
    for settings in [plain(0, ONE), plain(0, 7 * ONE), {
        let mut c = CameraSettings::cover_camera();
        c.aperture = s(0);
        c
    }] {
        let camera = Camera::new(&settings, s(1_777_777));
        for i in 0..200 {
            let u = s((i * 4_999) % ONE);
            let w = s((i * 7_001) % ONE);
            let ray = camera.get_ray(u, w, &mut rng);
            assert_eq!(ray.origin, settings.look_from);
        }
    }
}

#[test]
fn with_aperture_rays_start_on_the_lens() {
    let mut rng = StdRng::seed_from_u64(2);
    let camera = Camera::new(&plain(ONE, 2 * ONE), s(2 * ONE));
    let mut moved = false;
    for _ in 0..200 {
        let ray = camera.get_ray(s(500_000), s(500_000), &mut rng);
        let off = ray.origin.minus(p(0, 0, ONE));
        assert_eq!(off.z, s(0));
        assert!(off.length_squared().raw <= 250_000);
        assert_eq!(ray.origin.offset(ray.dir), p(0, 0, -ONE));
        moved = moved || off != v(0, 0, 0);
    }
    assert!(moved);
}

#[test]
fn rays_are_cast_while_the_shutter_is_open() {
    let mut rng = StdRng::seed_from_u64(3);
    let mut settings = plain(0, ONE);
    settings.t0 = s(2 * ONE);
    settings.t1 = s(3 * ONE);
    let camera = Camera::new(&settings, s(ONE));
    let mut late = 0;
    for _ in 0..400 {
        let ray = camera.get_ray(s(0), s(0), &mut rng);
        assert!(ray.time.raw >= 2 * ONE && ray.time.raw < 3 * ONE);
        if ray.time.raw >= 2_500_000 {
            late += 1;
        }
    }
    assert!(late > 150 && late < 250);
}

#[test]
fn a_shutter_that_does_not_open_casts_at_one_instant() {
    let mut rng = StdRng::seed_from_u64(4);
    let mut settings = plain(0, ONE);
    settings.t0 = s(5);
    settings.t1 = s(5);
    let camera = Camera::new(&settings, s(ONE));
    assert_eq!(camera.get_ray(s(0), s(0), &mut rng).time, s(5));
}

#[test]
fn the_cover_camera() {
    let settings = CameraSettings::cover_camera();
    assert_eq!(settings.look_from, p(13 * ONE, 2 * ONE, 3 * ONE));
    assert_eq!(settings.look_at, p(0, 0, 0));
    assert_eq!(settings.vup, v(0, ONE, 0));
    assert_eq!(settings.tan_half_vfov, s(176_327));
    assert_eq!(settings.aperture, s(100_000));
    assert_eq!(settings.focus_dist, s(10 * ONE));
    assert_eq!(settings.t0, s(0));
    assert_eq!(settings.t1, s(ONE));
    let camera = Camera::new(&settings, s(1_500_000));
    assert_eq!(camera.u, v(224_858, 0, -974_393));
    assert_eq!(camera.v, v(-144_453, 988_951, -33_334));
    assert_eq!(camera.horizontal, v(1_189_456, 0, -5_154_354));
    assert_eq!(camera.vertical, v(-509_420, 3_487_575, -117_554));
    assert_eq!(camera.lower_left_corner, p(3_023_742, -1_226_277, 3_412_214));
    assert_eq!(camera.lens_radius, s(50_000));
    let ray = camera.ray_through(s(500_000), s(500_000), v(0, 0, 0), s(0));
    assert_eq!(ray.dir, v(-9_636_240, -1_482_490, -2_223_740));
}

#[test]
fn default_settings_are_all_zero() {
    let settings = CameraSettings::default();
    assert_eq!(settings.look_from, p(0, 0, 0));
    assert_eq!(settings.look_at, p(0, 0, 0));
    assert_eq!(settings.vup, v(0, 0, 0));
    assert_eq!(settings.tan_half_vfov, s(0));
    assert_eq!(settings.aperture, s(0));
    assert_eq!(settings.focus_dist, s(0));
    assert_eq!(settings.t0, s(0));
    assert_eq!(settings.t1, s(0));
}
