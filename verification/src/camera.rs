//! The camera: where primary rays come from.
use crate::ray::Ray;
use crate::sampling::{draw_within, random_in_unit_disk};
use crate::scalar::{Scalar, SCALE};
use crate::vec3::{Point3, Vec3};
use rand::rngs::StdRng;
use vstd::prelude::*;

verus! {

/// How a camera is set up.
#[derive(Clone, Copy, Debug)]
pub struct CameraSettings {
    /// Where the camera stands.
    pub look_from: Point3,
    /// The point at which it looks.
    pub look_at: Point3,
    /// The direction that appears as up in the picture.
    pub vup: Vec3,
    /// The tangent of half the vertical field of view.
    pub tan_half_vfov: Scalar,
    /// The diameter of the lens.
    pub aperture: Scalar,
    /// The distance at which the picture is sharp.
    pub focus_dist: Scalar,
    /// When the shutter opens.
    pub t0: Scalar,
    /// When the shutter closes.
    pub t1: Scalar,
}

/// A camera that is ready to cast rays.
#[derive(Clone, Copy, Debug)]
pub struct Camera {
    pub origin: Point3,
    pub lower_left_corner: Point3,
    pub horizontal: Vec3,
    pub vertical: Vec3,
    pub u: Vec3,
    pub v: Vec3,
    pub lens_radius: Scalar,
    pub t0: Scalar,
    pub t1: Scalar,
}

impl CameraSettings {
    /// The settings of the cover picture: a field of view of twenty
    /// degrees, seen from `(13, 2, 3)`.
    pub open spec fn spec_cover_camera() -> CameraSettings {
        CameraSettings {
            look_from: Point3 {
                x: Scalar::from_int(13),
                y: Scalar::from_int(2),
                z: Scalar::from_int(3),
            },
            look_at: Point3 { x: Scalar { raw: 0 }, y: Scalar { raw: 0 }, z: Scalar { raw: 0 } },
            vup: Vec3 { x: Scalar { raw: 0 }, y: Scalar::from_int(1), z: Scalar { raw: 0 } },
            tan_half_vfov: Scalar { raw: 176_327 },
            aperture: Scalar { raw: 100_000 },
            focus_dist: Scalar::from_int(10),
            t0: Scalar { raw: 0 },
            t1: Scalar::from_int(1),
        }
    }

    #[verifier::when_used_as_spec(spec_cover_camera)]
    pub fn cover_camera() -> (r: CameraSettings)
        ensures
            r == Self::spec_cover_camera(),
    {
        let zero = Scalar::new(0);
        CameraSettings {
            look_from: Point3::new(Scalar::from_int(13), Scalar::from_int(2), Scalar::from_int(3)),
            look_at: Point3::new(zero, zero, zero),
            vup: Vec3::new(zero, Scalar::from_int(1), zero),
            tan_half_vfov: Scalar::new(176_327),
            aperture: Scalar::new(100_000),
            focus_dist: Scalar::from_int(10),
            t0: zero,
            t1: Scalar::from_int(1),
        }
    }
}

impl Default for CameraSettings {
    /// Settings in which every number is zero.
    fn default() -> (r: CameraSettings)
        ensures
            r.look_from == (Point3 { x: Scalar { raw: 0 }, y: Scalar { raw: 0 }, z: Scalar { raw: 0 } }),
            r.look_at == r.look_from,
            r.vup == (Vec3 { x: Scalar { raw: 0 }, y: Scalar { raw: 0 }, z: Scalar { raw: 0 } }),
            r.tan_half_vfov.raw == 0,
            r.aperture.raw == 0,
            r.focus_dist.raw == 0,
            r.t0.raw == 0,
            r.t1.raw == 0,
    {
        let zero = Scalar::new(0);
        CameraSettings {
            look_from: Point3::new(zero, zero, zero),
            look_at: Point3::new(zero, zero, zero),
            vup: Vec3::new(zero, zero, zero),
            tan_half_vfov: zero,
            aperture: zero,
            focus_dist: zero,
            t0: zero,
            t1: zero,
        }
    }
}

impl Camera {
    /// The camera for the given settings. `w` points from the target back
    /// to the camera, `u` to the right and `v` up. The viewport lies at the
    /// focus distance; per unit of distance it is twice the tangent of half
    /// the field of view high, and `aspect_ratio` times as wide.
    pub open spec fn spec_new(settings: &CameraSettings, aspect_ratio: Scalar) -> Camera {
        let viewport_height = Scalar::from_int(2).times(settings.tan_half_vfov);
        let viewport_width = aspect_ratio.times(viewport_height);
        let w = settings.look_from.minus(settings.look_at).unit_vector();
        let u = settings.vup.cross(w).unit_vector();
        let v = w.cross(u);
        let horizontal = u.scaled(settings.focus_dist.times(viewport_width));
        let vertical = v.scaled(settings.focus_dist.times(viewport_height));
        Camera {
            origin: settings.look_from,
            lower_left_corner: settings.look_from.to_vec3().minus(
                horizontal.divided(Scalar::from_int(2)),
            ).minus(vertical.divided(Scalar::from_int(2))).minus(
                w.scaled(settings.focus_dist),
            ).to_point3(),
            horizontal,
            vertical,
            u,
            v,
            lens_radius: settings.aperture.over(Scalar::from_int(2)),
            t0: settings.t0,
            t1: settings.t1,
        }
    }

    /// The ray through the point `(s, t)` of the viewport, from the point
    /// `lens` of the unit disk of the lens, cast at the instant `time`.
    pub open spec fn spec_ray_through(&self, s: Scalar, t: Scalar, lens: Vec3, time: Scalar) -> Ray {
        let rd = lens.scaled(self.lens_radius);
        let offset = self.u.scaled(rd.x).plus(self.v.scaled(rd.y));
        Ray {
            origin: self.origin.offset(offset),
            dir: self.lower_left_corner.to_vec3().plus(self.horizontal.scaled(s)).plus(
                self.vertical.scaled(t),
            ).minus(self.origin.to_vec3()).minus(offset),
            time,
        }
    }

    /// Creates the camera.
    #[verifier::when_used_as_spec(spec_new)]
    pub fn new(settings: &CameraSettings, aspect_ratio: Scalar) -> (r: Camera)
        ensures
            r == Self::spec_new(settings, aspect_ratio),
            r.origin == settings.look_from,
            r.lens_radius == settings.aperture.over(Scalar::from_int(2)),
    {
        let two = Scalar::from_int(2);
        let viewport_height = two.times(settings.tan_half_vfov);
        let viewport_width = aspect_ratio.times(viewport_height);
        let w = settings.look_from.minus(settings.look_at).unit_vector();
        let u = settings.vup.cross(w).unit_vector();
        let v = w.cross(u);
        let origin = settings.look_from;
        let horizontal = u.scaled(settings.focus_dist.times(viewport_width));
        let vertical = v.scaled(settings.focus_dist.times(viewport_height));
        let lower_left_corner = origin.to_vec3().minus(horizontal.divided(two)).minus(
            vertical.divided(two),
        ).minus(w.scaled(settings.focus_dist)).to_point3();
        Camera {
            origin,
            lower_left_corner,
            horizontal,
            vertical,
            u,
            v,
            lens_radius: settings.aperture.over(two),
            t0: settings.t0,
            t1: settings.t1,
        }
    }

    #[verifier::when_used_as_spec(spec_ray_through)]
    pub fn ray_through(&self, s: Scalar, t: Scalar, lens: Vec3, time: Scalar) -> (r: Ray)
        ensures
            r == self.spec_ray_through(s, t, lens, time),
            self.lens_radius.raw == 0 ==> r.origin == self.origin,
    {
        let rd = lens.scaled(self.lens_radius);
        let offset = self.u.scaled(rd.x).plus(self.v.scaled(rd.y));
        proof {
            if self.lens_radius.raw == 0 {
                lemma_times_zero(lens.x);
                lemma_times_zero(lens.y);
                lemma_times_zero(self.u.x);
                lemma_times_zero(self.u.y);
                lemma_times_zero(self.u.z);
                lemma_times_zero(self.v.x);
                lemma_times_zero(self.v.y);
                lemma_times_zero(self.v.z);
            }
        }
        Ray {
            origin: self.origin.offset(offset),
            dir: self.lower_left_corner.to_vec3().plus(self.horizontal.scaled(s)).plus(
                self.vertical.scaled(t),
            ).minus(self.origin.to_vec3()).minus(offset),
            time,
        }
    }

    /// A ray through the point `(s, t)` of the viewport. It starts at a
    /// point of the lens drawn at random and is cast at an instant drawn
    /// from the time that the shutter is open, or at the instant `t0` where
    /// it never is. With a lens of radius zero every ray starts at the
    /// position of the camera.
    pub fn get_ray(&self, s: Scalar, t: Scalar, rng: &mut StdRng) -> (r: Ray)
        ensures
            exists|lens: Vec3, time: Scalar|
                lens.z.raw == 0 && lens.length_squared().raw < SCALE && r
                    == #[trigger] self.spec_ray_through(s, t, lens, time),
            self.t0.raw < self.t1.raw ==> self.t0.raw <= r.time.raw < self.t1.raw,
            self.t0.raw >= self.t1.raw ==> r.time == self.t0,
            self.lens_radius.raw == 0 ==> r.origin == self.origin,
    {
        let lens = random_in_unit_disk(rng);
        let time = draw_within(rng, self.t0, self.t1);
        let r = self.ray_through(s, t, lens, time);
        assert(r == self.spec_ray_through(s, t, lens, time));
        r
    }
}

/// A camera without aperture is a pinhole: every ray that it casts, through
/// whatever point of the viewport and from whatever point of the lens,
/// starts where the settings place the camera.
pub proof fn lemma_pinhole(
    settings: CameraSettings,
    aspect_ratio: Scalar,
    s: Scalar,
    t: Scalar,
    lens: Vec3,
    time: Scalar,
)
    requires
        settings.aperture.raw == 0,
    ensures
        Camera::spec_new(&settings, aspect_ratio).spec_ray_through(s, t, lens, time).origin
            == settings.look_from,
{
    let camera = Camera::spec_new(&settings, aspect_ratio);
    assert(0int * 1_000_000 == 0) by (nonlinear_arith);
    assert(camera.lens_radius.raw == 0);
    lemma_times_zero(lens.x);
    lemma_times_zero(lens.y);
    lemma_times_zero(camera.u.x);
    lemma_times_zero(camera.u.y);
    lemma_times_zero(camera.u.z);
    lemma_times_zero(camera.v.x);
    lemma_times_zero(camera.v.y);
    lemma_times_zero(camera.v.z);
}

/// Any number times zero is zero.
pub proof fn lemma_times_zero(a: Scalar)
    ensures
        a.times(Scalar { raw: 0 }).raw == 0,
        (Scalar { raw: 0 }).times(a).raw == 0,
{
    assert(a.raw * 0 == 0) by (nonlinear_arith);
    assert(0 * a.raw == 0) by (nonlinear_arith);
    assert(0int / (SCALE as int) == 0);
}

} // verus!
