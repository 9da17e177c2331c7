//! Materials: what becomes of a ray where it meets a surface.
//!
//! Whatever a material does at random is decided by two draws, a direction
//! `jitter` and a number `coin` from `[0, 1)`. `scatter_with` takes the two
//! as arguments and is an exact function of them; `scatter` makes the draws
//! that the material needs and hands them on.
use crate::hittable::HitRecord;
use crate::ray::Ray;
use crate::sampling::{draw_unit, rand_unit_vector, random_in_unit_sphere};
use crate::scalar::{Scalar, SCALE};
use crate::texture::{AnyTexture, Texture};
use crate::vec3::{Color, Point3, Vec3};
use rand::rngs::StdRng;
use vstd::prelude::*;

verus! {

/// Schlick's approximation of the share of light that a surface of
/// refractive index `ref_idx` reflects at an angle of cosine `cosine`:
/// `r0 + (1 - r0) (1 - cosine)^5` with `r0 = ((1 - n) / (1 + n))^2`.
pub open spec fn spec_schlick(cosine: Scalar, ref_idx: Scalar) -> Scalar {
    let one = Scalar::from_int(1);
    let base = one.minus(ref_idx).over(one.plus(ref_idx));
    let r0 = base.times(base);
    let m = one.minus(cosine);
    r0.plus(one.minus(r0).times(m.times(m).times(m).times(m).times(m)))
}

#[verifier::when_used_as_spec(spec_schlick)]
pub fn schlick(cosine: Scalar, ref_idx: Scalar) -> (r: Scalar)
    ensures
        r == spec_schlick(cosine, ref_idx),
{
    let one = Scalar::from_int(1);
    let base = one.minus(ref_idx).over(one.plus(ref_idx));
    let r0 = base.times(base);
    let m = one.minus(cosine);
    r0.plus(one.minus(r0).times(m.times(m).times(m).times(m).times(m)))
}

/// White: no loss of energy.
pub open spec fn white() -> Color {
    Color { red: Scalar::from_int(1), green: Scalar::from_int(1), blue: Scalar::from_int(1) }
}

/// The behaviour of a surface under light.
pub trait Material {
    /// The scattered ray and its attenuation, or `None` where the ray is
    /// absorbed, as a function of the two random draws.
    spec fn scatter_given(&self, ray: Ray, rec: HitRecord, jitter: Vec3, coin: Scalar) -> Option<
        (Ray, Color),
    >;

    /// Whether the material may be handed these two draws.
    spec fn draws_allowed(&self, jitter: Vec3, coin: Scalar) -> bool;

    /// The radiance that the surface gives off by itself.
    spec fn emitted_at(&self, u: Scalar, v: Scalar, point: Point3) -> Color;

    fn scatter_with(&self, ray: &Ray, rec: &HitRecord, jitter: Vec3, coin: Scalar) -> (r: Option<
        (Ray, Color),
    >)
        ensures
            r == self.scatter_given(*ray, *rec, jitter, coin),
    ;

    fn scatter(&self, ray: &Ray, rec: &HitRecord, rng: &mut StdRng) -> (r: Option<(Ray, Color)>)
        ensures
            exists|jitter: Vec3, coin: Scalar|
                self.draws_allowed(jitter, coin) && r == #[trigger] self.scatter_given(
                    *ray,
                    *rec,
                    jitter,
                    coin,
                ),
    ;

    fn emitted(&self, u: Scalar, v: Scalar, point: Point3) -> (r: Color)
        ensures
            r == self.emitted_at(u, v, point),
    ;
}

/// A matt surface that scatters light in all directions.
#[derive(Debug)]
pub struct Lambertian {
    albedo: AnyTexture,
}

/// A mirror, more or less blurred.
#[derive(Clone, Copy, Debug)]
pub struct Metal {
    albedo: Color,
    fuzz: Scalar,
}

/// A clear substance such as glass, which reflects or refracts.
#[derive(Clone, Copy, Debug)]
pub struct Dielectric {
    ri: Scalar,
}

/// A surface that gives off light and scatters none.
#[derive(Debug)]
pub struct Light {
    albedo: AnyTexture,
    color: Color,
}

/// Any of the materials of this library.
#[derive(Debug)]
pub enum AnyMaterial {
    Lambertian(Lambertian),
    Metal(Metal),
    Dielectric(Dielectric),
    Light(Light),
}

impl Lambertian {
    pub closed spec fn spec_albedo(&self) -> AnyTexture {
        self.albedo
    }

    pub fn new(albedo: AnyTexture) -> (r: Lambertian)
        ensures
            r.spec_albedo() == albedo,
    {
        Lambertian { albedo }
    }
}

impl Material for Lambertian {
    /// The jitter is a point inside the unit sphere.
    open spec fn draws_allowed(&self, jitter: Vec3, coin: Scalar) -> bool {
        jitter.length_squared().raw < SCALE
    }

    /// The ray leaves the point of the hit towards the point that lies one
    /// normal and one jitter away from it; its colour is filtered by the
    /// texture.
    open spec fn scatter_given(&self, ray: Ray, rec: HitRecord, jitter: Vec3, coin: Scalar) -> Option<
        (Ray, Color),
    > {
        let target = rec.point.offset(rec.normal).offset(jitter);
        Some(
            (
                Ray { origin: rec.point, dir: target.minus(rec.point), time: ray.time },
                self.spec_albedo().color_at(rec.u, rec.v, rec.point),
            ),
        )
    }

    open spec fn emitted_at(&self, u: Scalar, v: Scalar, point: Point3) -> Color {
        Color::black()
    }

    fn scatter_with(&self, ray: &Ray, rec: &HitRecord, jitter: Vec3, coin: Scalar) -> (r: Option<
        (Ray, Color),
    >) {
        let target = rec.point.offset(rec.normal).offset(jitter);
        let out = Ray { origin: rec.point, dir: target.minus(rec.point), time: ray.time };
        Some((out, self.albedo.value(rec.u, rec.v, rec.point)))
    }

    fn scatter(&self, ray: &Ray, rec: &HitRecord, rng: &mut StdRng) -> (r: Option<(Ray, Color)>) {
        let jitter = random_in_unit_sphere(rng);
        let r = self.scatter_with(ray, rec, jitter, Scalar::new(0));
        assert(r == self.scatter_given(*ray, *rec, jitter, Scalar { raw: 0 }));
        r
    }

    fn emitted(&self, u: Scalar, v: Scalar, point: Point3) -> (r: Color) {
        Color::default()
    }
}

impl Metal {
    pub closed spec fn spec_albedo(&self) -> Color {
        self.albedo
    }

    pub closed spec fn spec_fuzz(&self) -> Scalar {
        self.fuzz
    }

    /// A metal of the given colour; a fuzz above one counts as one.
    pub fn new(albedo: Color, fuzz: Scalar) -> (r: Metal)
        ensures
            r.spec_albedo() == albedo,
            r.spec_fuzz() == fuzz.least(Scalar::from_int(1)),
    {
        Metal { albedo, fuzz: fuzz.least(Scalar::from_int(1)) }
    }
}

impl Material for Metal {
    /// The jitter is a point inside the unit sphere, divided by its length.
    open spec fn draws_allowed(&self, jitter: Vec3, coin: Scalar) -> bool {
        exists|p: Vec3| p.length_squared().raw < SCALE && jitter == #[trigger] p.unit_vector()
    }

    /// The ray is mirrored about the normal and then pushed aside by the
    /// jitter, scaled by the fuzz. A ray that would enter the surface is
    /// absorbed.
    open spec fn scatter_given(&self, ray: Ray, rec: HitRecord, jitter: Vec3, coin: Scalar) -> Option<
        (Ray, Color),
    > {
        let reflected = ray.dir.unit_vector().reflect(&rec.normal);
        let dir = reflected.plus(jitter.scaled(self.spec_fuzz()));
        if dir.dot(rec.normal).raw <= 0 {
            None
        } else {
            Some((Ray { origin: rec.point, dir, time: ray.time }, self.spec_albedo()))
        }
    }

    open spec fn emitted_at(&self, u: Scalar, v: Scalar, point: Point3) -> Color {
        Color::black()
    }

    fn scatter_with(&self, ray: &Ray, rec: &HitRecord, jitter: Vec3, coin: Scalar) -> (r: Option<
        (Ray, Color),
    >) {
        let reflected = ray.dir.unit_vector().reflect(&rec.normal);
        let dir = reflected.plus(jitter.scaled(self.fuzz));
        if dir.dot(rec.normal).raw <= 0 {
            return None;
        }
        Some((Ray { origin: rec.point, dir, time: ray.time }, self.albedo))
    }

    fn scatter(&self, ray: &Ray, rec: &HitRecord, rng: &mut StdRng) -> (r: Option<(Ray, Color)>) {
        let jitter = rand_unit_vector(rng);
        let r = self.scatter_with(ray, rec, jitter, Scalar::new(0));
        assert(r == self.scatter_given(*ray, *rec, jitter, Scalar { raw: 0 }));
        r
    }

    fn emitted(&self, u: Scalar, v: Scalar, point: Point3) -> (r: Color) {
        Color::default()
    }
}

impl Dielectric {
    pub closed spec fn spec_ri(&self) -> Scalar {
        self.ri
    }

    /// The ratio of refractive indices that a ray meets at this hit.
    pub open spec fn ratio(&self, rec: HitRecord) -> Scalar {
        if rec.front_face {
            Scalar::from_int(1).over(self.spec_ri())
        } else {
            self.spec_ri()
        }
    }

    /// The cosine of the angle between the incoming ray and the normal,
    /// capped at one.
    pub open spec fn cos_theta(ray: Ray, rec: HitRecord) -> Scalar {
        ray.dir.unit_vector().negated().dot(rec.normal).least(Scalar::from_int(1))
    }

    /// The sine of that angle.
    pub open spec fn sin_theta(ray: Ray, rec: HitRecord) -> Scalar {
        let c = Self::cos_theta(ray, rec);
        Scalar::from_int(1).minus(c.times(c)).root()
    }

    /// Whether the ray cannot leave the denser medium and is reflected
    /// whatever the draw.
    pub open spec fn reflects_totally(&self, ray: Ray, rec: HitRecord) -> bool {
        self.ratio(rec).times(Self::sin_theta(ray, rec)).raw > SCALE
    }

    pub fn new(ri: Scalar) -> (r: Dielectric)
        ensures
            r.spec_ri() == ri,
    {
        Dielectric { ri }
    }

    fn total_reflection(&self, ray: &Ray, rec: &HitRecord) -> (r: bool)
        ensures
            r == self.reflects_totally(*ray, *rec),
    {
        let one = Scalar::from_int(1);
        let etai_over_etat = if rec.front_face {
            one.over(self.ri)
        } else {
            self.ri
        };
        let cos_theta = ray.dir.unit_vector().negated().dot(rec.normal).least(one);
        let sin_theta = one.minus(cos_theta.times(cos_theta)).root();
        etai_over_etat.times(sin_theta).raw > SCALE
    }
}

impl Material for Dielectric {
    /// The coin lies in `[0, 1)`.
    open spec fn draws_allowed(&self, jitter: Vec3, coin: Scalar) -> bool {
        0 <= coin.raw < SCALE
    }

    /// The ray is reflected where it cannot be refracted, and also where
    /// the coin falls below Schlick's reflectance; otherwise it is
    /// refracted. Nothing is absorbed.
    open spec fn scatter_given(&self, ray: Ray, rec: HitRecord, jitter: Vec3, coin: Scalar) -> Option<
        (Ray, Color),
    > {
        let unit_dir = ray.dir.unit_vector();
        let dir = if self.reflects_totally(ray, rec) || coin.raw < schlick(
            Self::cos_theta(ray, rec),
            self.spec_ri(),
        ).raw {
            unit_dir.reflect(&rec.normal)
        } else {
            unit_dir.refract(&rec.normal, self.ratio(rec))
        };
        Some((Ray { origin: rec.point, dir, time: ray.time }, white()))
    }

    open spec fn emitted_at(&self, u: Scalar, v: Scalar, point: Point3) -> Color {
        Color::black()
    }

    fn scatter_with(&self, ray: &Ray, rec: &HitRecord, jitter: Vec3, coin: Scalar) -> (r: Option<
        (Ray, Color),
    >) {
        let one = Scalar::from_int(1);
        let attenuation = Color::new(one, one, one);
        let etai_over_etat = if rec.front_face {
            one.over(self.ri)
        } else {
            self.ri
        };
        let unit_dir = ray.dir.unit_vector();
        let cos_theta = unit_dir.negated().dot(rec.normal).least(one);
        let dir = if self.total_reflection(ray, rec) {
            unit_dir.reflect(&rec.normal)
        } else {
            let reflect_prob = schlick(cos_theta, self.ri);
            if coin.raw < reflect_prob.raw {
                unit_dir.reflect(&rec.normal)
            } else {
                unit_dir.refract(&rec.normal, etai_over_etat)
            }
        };
        Some((Ray { origin: rec.point, dir, time: ray.time }, attenuation))
    }

    fn scatter(&self, ray: &Ray, rec: &HitRecord, rng: &mut StdRng) -> (r: Option<(Ray, Color)>) {
        let zero = Vec3::new(Scalar::new(0), Scalar::new(0), Scalar::new(0));
        let coin = if self.total_reflection(ray, rec) {
            Scalar::new(0)
        } else {
            draw_unit(rng)
        };
        let r = self.scatter_with(ray, rec, zero, coin);
        assert(r == self.scatter_given(*ray, *rec, zero, coin));
        r
    }

    fn emitted(&self, u: Scalar, v: Scalar, point: Point3) -> (r: Color) {
        Color::default()
    }
}

impl Light {
    pub closed spec fn spec_albedo(&self) -> AnyTexture {
        self.albedo
    }

    pub closed spec fn spec_color(&self) -> Color {
        self.color
    }

    pub fn new(albedo: AnyTexture, color: Color) -> (r: Light)
        ensures
            r.spec_albedo() == albedo,
            r.spec_color() == color,
    {
        Light { albedo, color }
    }
}

impl Material for Light {
    /// A lamp takes no draws: any will do.
    open spec fn draws_allowed(&self, jitter: Vec3, coin: Scalar) -> bool {
        true
    }

    /// Every ray ends here.
    open spec fn scatter_given(&self, ray: Ray, rec: HitRecord, jitter: Vec3, coin: Scalar) -> Option<
        (Ray, Color),
    > {
        None
    }

    open spec fn emitted_at(&self, u: Scalar, v: Scalar, point: Point3) -> Color {
        self.spec_color()
    }

    fn scatter_with(&self, ray: &Ray, rec: &HitRecord, jitter: Vec3, coin: Scalar) -> (r: Option<
        (Ray, Color),
    >) {
        None
    }

    fn scatter(&self, ray: &Ray, rec: &HitRecord, rng: &mut StdRng) -> (r: Option<(Ray, Color)>) {
        let zero = Vec3 { x: Scalar { raw: 0 }, y: Scalar { raw: 0 }, z: Scalar { raw: 0 } };
        assert(None::<(Ray, Color)> == self.scatter_given(*ray, *rec, zero, Scalar { raw: 0 }));
        None
    }

    fn emitted(&self, u: Scalar, v: Scalar, point: Point3) -> (r: Color) {
        self.color
    }
}

impl Material for AnyMaterial {
    /// What the variant allows.
    open spec fn draws_allowed(&self, jitter: Vec3, coin: Scalar) -> bool {
        match self {
            AnyMaterial::Lambertian(m) => m.draws_allowed(jitter, coin),
            AnyMaterial::Metal(m) => m.draws_allowed(jitter, coin),
            AnyMaterial::Dielectric(m) => m.draws_allowed(jitter, coin),
            AnyMaterial::Light(m) => m.draws_allowed(jitter, coin),
        }
    }

    open spec fn scatter_given(&self, ray: Ray, rec: HitRecord, jitter: Vec3, coin: Scalar) -> Option<
        (Ray, Color),
    > {
        match self {
            AnyMaterial::Lambertian(m) => m.scatter_given(ray, rec, jitter, coin),
            AnyMaterial::Metal(m) => m.scatter_given(ray, rec, jitter, coin),
            AnyMaterial::Dielectric(m) => m.scatter_given(ray, rec, jitter, coin),
            AnyMaterial::Light(m) => m.scatter_given(ray, rec, jitter, coin),
        }
    }

    open spec fn emitted_at(&self, u: Scalar, v: Scalar, point: Point3) -> Color {
        match self {
            AnyMaterial::Lambertian(m) => m.emitted_at(u, v, point),
            AnyMaterial::Metal(m) => m.emitted_at(u, v, point),
            AnyMaterial::Dielectric(m) => m.emitted_at(u, v, point),
            AnyMaterial::Light(m) => m.emitted_at(u, v, point),
        }
    }

    fn scatter_with(&self, ray: &Ray, rec: &HitRecord, jitter: Vec3, coin: Scalar) -> (r: Option<
        (Ray, Color),
    >) {
        match self {
            AnyMaterial::Lambertian(m) => m.scatter_with(ray, rec, jitter, coin),
            AnyMaterial::Metal(m) => m.scatter_with(ray, rec, jitter, coin),
            AnyMaterial::Dielectric(m) => m.scatter_with(ray, rec, jitter, coin),
            AnyMaterial::Light(m) => m.scatter_with(ray, rec, jitter, coin),
        }
    }

    fn scatter(&self, ray: &Ray, rec: &HitRecord, rng: &mut StdRng) -> (r: Option<(Ray, Color)>) {
        match self {
            AnyMaterial::Lambertian(m) => {
                let r = m.scatter(ray, rec, rng);
                proof {
                    let (j, c) = choose|j: Vec3, c: Scalar|
                        m.draws_allowed(j, c) && r == #[trigger] m.scatter_given(*ray, *rec, j, c);
                    assert(r == self.scatter_given(*ray, *rec, j, c));
                }
                r
            },
            AnyMaterial::Metal(m) => {
                let r = m.scatter(ray, rec, rng);
                proof {
                    let (j, c) = choose|j: Vec3, c: Scalar|
                        m.draws_allowed(j, c) && r == #[trigger] m.scatter_given(*ray, *rec, j, c);
                    assert(r == self.scatter_given(*ray, *rec, j, c));
                }
                r
            },
            AnyMaterial::Dielectric(m) => {
                let r = m.scatter(ray, rec, rng);
                proof {
                    let (j, c) = choose|j: Vec3, c: Scalar|
                        m.draws_allowed(j, c) && r == #[trigger] m.scatter_given(*ray, *rec, j, c);
                    assert(r == self.scatter_given(*ray, *rec, j, c));
                }
                r
            },
            AnyMaterial::Light(m) => {
                let r = m.scatter(ray, rec, rng);
                proof {
                    let (j, c) = choose|j: Vec3, c: Scalar|
                        m.draws_allowed(j, c) && r == #[trigger] m.scatter_given(*ray, *rec, j, c);
                    assert(r == self.scatter_given(*ray, *rec, j, c));
                }
                r
            },
        }
    }

    fn emitted(&self, u: Scalar, v: Scalar, point: Point3) -> (r: Color) {
        match self {
            AnyMaterial::Lambertian(m) => m.emitted(u, v, point),
            AnyMaterial::Metal(m) => m.emitted(u, v, point),
            AnyMaterial::Dielectric(m) => m.emitted(u, v, point),
            AnyMaterial::Light(m) => m.emitted(u, v, point),
        }
    }
}

} // verus!
