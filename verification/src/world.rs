//! The scene: the list of all objects, searched one by one.
use crate::bvh::{any_hit, closer, AnyHittable};
use crate::hittable::{HitRecord, Hittable, MovingSphere, Sphere};
use crate::material::{AnyMaterial, Dielectric, Lambertian, Light, Metal};
use crate::ray::Ray;
use crate::sampling::{draw_between, draw_unit, draw_within};
use crate::scalar::Scalar;
use crate::texture::{AnyTexture, Checker, ImageTexture, SolidColor};
use crate::vec3::{Color, Point3, Vec3};
use rand::rngs::StdRng;
use vstd::prelude::*;

verus! {

/// All the objects of a scene, in the order in which they were added.
#[derive(Debug)]
pub struct World {
    pub hittables: Vec<AnyHittable>,
}

/// The closest hit of a ray on a sequence of objects; of several hits at
/// the same parameter, the one on the object that stands first.
pub open spec fn scan<'a>(items: Seq<AnyHittable>, ray: Ray, t_min: Scalar, t_max: Scalar) -> Option<
    HitRecord<'a>,
>
    decreases items.len(),
{
    if items.len() == 0 {
        None
    } else {
        closer(
            any_hit(&items.last(), ray, t_min, t_max),
            scan(items.drop_last(), ray, t_min, t_max),
        )
    }
}

/// Whether an object is a sphere at rest with the given centre and radius.
pub open spec fn is_ball(h: AnyHittable, center: Point3, radius: Scalar) -> bool {
    match h {
        AnyHittable::Sphere(s) => s.spec_center() == center && s.spec_radius() == radius,
        _ => false,
    }
}

/// Whether a ball of radius 0.2 with this centre keeps clear of the big
/// metal ball: its centre is more than 0.9 away from the point
/// `(4, 0.2, 0)`.
pub open spec fn keeps_clear(center: Point3) -> bool {
    center.minus(
        Point3 { x: Scalar::from_int(4), y: Scalar { raw: 200_000 }, z: Scalar { raw: 0 } },
    ).length().raw > 900_000
}

/// Whether a coordinate lies in the cell `a` of the ground: at least `a`
/// and less than nine tenths beyond it, for a whole number `a` from -11 to
/// 10.
pub open spec fn in_cell(x: Scalar, a: int) -> bool {
    -11 <= a < 11 && a * 1_000_000 <= x.raw < a * 1_000_000 + 900_000
}

/// Whether a point lies in one of the 22 by 22 cells of the ground.
pub open spec fn on_the_grid(center: Point3) -> bool {
    (exists|a: int| in_cell(center.x, a)) && (exists|b: int| in_cell(center.z, b))
}

/// Whether every channel of a colour is at least `from` and less than
/// `to`.
pub open spec fn channels_within(c: Color, from: int, to: int) -> bool {
    from <= c.red.raw < to && from <= c.green.raw < to && from <= c.blue.raw < to
}

/// Whether a material is one that a small ball can have: matt in a colour
/// with channels below one, a metal with channels from a half to one and
/// a fuzz below a half, or glass.
pub open spec fn is_small_ball_material(m: AnyMaterial) -> bool {
    match m {
        AnyMaterial::Lambertian(l) => match l.spec_albedo() {
            AnyTexture::Solid(t) => channels_within(t.spec_color(), 0, 1_000_000),
            _ => false,
        },
        AnyMaterial::Metal(t) => channels_within(t.spec_albedo(), 500_000, 1_000_000) && 0
            <= t.spec_fuzz().raw < 500_000,
        AnyMaterial::Dielectric(t) => t.spec_ri().raw == 1_500_000,
        AnyMaterial::Light(_) => false,
    }
}

/// Whether an object is one of the small balls of the cover scenes: a
/// sphere of radius 0.2 that rests on a cell of the ground clear of the
/// big metal ball, or one that starts there and rises by at least 0.1 and
/// less than 0.3 while the shutter is open from time 0 to time 1.
pub open spec fn is_small_ball(h: AnyHittable) -> bool {
    match h {
        AnyHittable::Sphere(s) => {
            &&& s.spec_radius().raw == 200_000
            &&& s.spec_center().y.raw == 200_000
            &&& on_the_grid(s.spec_center())
            &&& keeps_clear(s.spec_center())
            &&& is_small_ball_material(*s.spec_material())
        },
        AnyHittable::Moving(s) => {
            &&& s.spec_radius().raw == 200_000
            &&& s.spec_center0().y.raw == 200_000
            &&& on_the_grid(s.spec_center0())
            &&& keeps_clear(s.spec_center0())
            &&& is_small_ball_material(*s.spec_material())
            &&& s.spec_center1().x == s.spec_center0().x
            &&& s.spec_center1().z == s.spec_center0().z
            &&& 300_000 <= s.spec_center1().y.raw < 500_000
            &&& s.spec_t0().raw == 0
            &&& s.spec_t1() == Scalar::from_int(1)
        },
        AnyHittable::Node(_) => false,
    }
}

/// The material of an object that is a sphere.
pub open spec fn material_of(h: AnyHittable) -> AnyMaterial {
    match h {
        AnyHittable::Sphere(s) => *s.spec_material(),
        AnyHittable::Moving(s) => *s.spec_material(),
        AnyHittable::Node(n) => arbitrary(),
    }
}

/// Whether a material is matt with one colour everywhere.
pub open spec fn is_matt(m: AnyMaterial, color: Color) -> bool {
    match m {
        AnyMaterial::Lambertian(l) => match l.spec_albedo() {
            AnyTexture::Solid(t) => t.spec_color() == color,
            _ => false,
        },
        _ => false,
    }
}

/// Whether a material is matt and chequered in two colours.
pub open spec fn is_chequered(m: AnyMaterial, odd: Color, even: Color) -> bool {
    match m {
        AnyMaterial::Lambertian(l) => match l.spec_albedo() {
            AnyTexture::Checker(t) => t.spec_odd() == odd && t.spec_even() == even,
            _ => false,
        },
        _ => false,
    }
}

/// Whether a material is a metal of the given colour and fuzz.
pub open spec fn is_metal(m: AnyMaterial, albedo: Color, fuzz: Scalar) -> bool {
    match m {
        AnyMaterial::Metal(t) => t.spec_albedo() == albedo && t.spec_fuzz() == fuzz,
        _ => false,
    }
}

/// Whether a material is clear with the given refractive index.
pub open spec fn is_clear(m: AnyMaterial, ri: Scalar) -> bool {
    match m {
        AnyMaterial::Dielectric(t) => t.spec_ri() == ri,
        _ => false,
    }
}

/// Whether a material gives off the given light.
pub open spec fn is_lamp(m: AnyMaterial, color: Color) -> bool {
    match m {
        AnyMaterial::Light(t) => t.spec_color() == color,
        _ => false,
    }
}

/// Whether the three big balls at the end of a cover scene are made of
/// glass, of matt brown and of polished metal, in this order.
pub open spec fn has_cover_materials(items: Seq<AnyHittable>) -> bool {
    let n = items.len() as int;
    &&& is_clear(material_of(items[n - 3]), Scalar { raw: 1_500_000 })
    &&& is_matt(
        material_of(items[n - 2]),
        Color {
            red: Scalar { raw: 400_000 },
            green: Scalar { raw: 200_000 },
            blue: Scalar { raw: 100_000 },
        },
    )
    &&& is_metal(
        material_of(items[n - 1]),
        Color {
            red: Scalar { raw: 700_000 },
            green: Scalar { raw: 600_000 },
            blue: Scalar { raw: 500_000 },
        },
        Scalar { raw: 0 },
    )
}

/// Grey, the colour of plain ground.
pub open spec fn grey() -> Color {
    Color { red: Scalar { raw: 500_000 }, green: Scalar { raw: 500_000 }, blue: Scalar { raw: 500_000 } }
}

/// Whether a scene has the layout of the cover scenes: the ground, a
/// sphere of radius 1000 below the origin, comes first; then come at most
/// 484 small balls; three balls of radius 1 on the ground come last.
pub open spec fn is_cover_layout(items: Seq<AnyHittable>) -> bool {
    let n = items.len() as int;
    &&& 4 <= n <= 488
    &&& is_ball(
        items[0],
        Point3 { x: Scalar { raw: 0 }, y: Scalar::from_int(1000).negated(), z: Scalar { raw: 0 } },
        Scalar::from_int(1000),
    )
    &&& forall|i: int| 1 <= i < n - 3 ==> is_small_ball(#[trigger] items[i])
    &&& is_ball(
        items[n - 3],
        Point3 { x: Scalar { raw: 0 }, y: Scalar::from_int(1), z: Scalar { raw: 0 } },
        Scalar::from_int(1),
    )
    &&& is_ball(
        items[n - 2],
        Point3 { x: Scalar::from_int(4).negated(), y: Scalar::from_int(1), z: Scalar { raw: 0 } },
        Scalar::from_int(1),
    )
    &&& is_ball(
        items[n - 1],
        Point3 { x: Scalar::from_int(4), y: Scalar::from_int(1), z: Scalar { raw: 0 } },
        Scalar::from_int(1),
    )
}

/// The product of a number in `[0, 1)` and a number in `[0, bound]` lies
/// in `[0, bound)`.
proof fn lemma_fraction_of(part: Scalar, whole: Scalar, bound: int)
    requires
        0 <= part.raw < 1_000_000,
        0 <= whole.raw <= bound,
        0 < bound <= 1_000_000,
    ensures
        0 <= part.times(whole).raw < bound,
        part.times(whole).raw == (part.raw * whole.raw) / 1_000_000,
{
    let p = part.raw as int;
    let w = whole.raw as int;
    assert(0 <= p * w < bound * 1_000_000) by (nonlinear_arith)
        requires
            0 <= p < 1_000_000,
            0 <= w <= bound,
            0 < bound,
    ;
    assert(0 <= (p * w) / 1_000_000 < bound) by (nonlinear_arith)
        requires
            0 <= p * w < bound * 1_000_000,
            0 < bound,
    ;
}

/// A colour with each channel drawn from `[from, to)`.
fn random_color(rng: &mut StdRng, from: Scalar, to: Scalar) -> (r: Color)
    ensures
        from.raw < to.raw ==> from.raw <= r.red.raw < to.raw && from.raw <= r.green.raw < to.raw
            && from.raw <= r.blue.raw < to.raw,
{
    let red = draw_within(rng, from, to);
    let green = draw_within(rng, from, to);
    let blue = draw_within(rng, from, to);
    Color::new(red, green, blue)
}

/// A material for a small ball: matt in half of the cases, metal in a
/// quarter, glass in a quarter.
fn random_material(rng: &mut StdRng) -> (r: AnyMaterial)
    ensures
        is_small_ball_material(r),
{
    let zero = Scalar::new(0);
    let half = Scalar::new(500_000);
    let one = Scalar::from_int(1);
    let mat_choice = draw_unit(rng);
    if mat_choice.raw < 500_000 {
        let first = random_color(rng, zero, one);
        let second = random_color(rng, zero, one);
        let albedo = first.times(second);
        proof {
            lemma_fraction_of(first.red, second.red, 1_000_000);
            lemma_fraction_of(first.green, second.green, 1_000_000);
            lemma_fraction_of(first.blue, second.blue, 1_000_000);
        }
        AnyMaterial::Lambertian(Lambertian::new(AnyTexture::Solid(SolidColor::new(albedo))))
    } else if mat_choice.raw < 750_000 {
        let albedo = random_color(rng, half, one);
        let fuzz = draw_within(rng, zero, half);
        AnyMaterial::Metal(Metal::new(albedo, fuzz))
    } else {
        AnyMaterial::Dielectric(Dielectric::new(Scalar::new(1_500_000)))
    }
}

/// The small ball of the cell `(a, b)` of the ground, or `None` where it
/// would touch the big metal ball. With `moving`, one ball in four rises
/// while the shutter is open.
fn small_ball(rng: &mut StdRng, a: i32, b: i32, moving: bool) -> (r: Option<AnyHittable>)
    requires
        -11 <= a < 11,
        -11 <= b < 11,
    ensures
        exists|along: Scalar, across: Scalar|
            0 <= along.raw < 1_000_000 && 0 <= across.raw < 1_000_000 && placed(
                #[trigger] cell_point(a, b, along, across),
                r,
            ),
        r.is_some() ==> is_small_ball(r.unwrap()),
        r.is_some() && !moving ==> r.unwrap() is Sphere,
{
    let zero = Scalar::new(0);
    let radius = Scalar::new(200_000);
    let spread = Scalar::new(900_000);
    let along = draw_unit(rng);
    let across = draw_unit(rng);
    let center = Point3::new(
        Scalar::from_int(a).plus(spread.times(along)),
        radius,
        Scalar::from_int(b).plus(spread.times(across)),
    );
    proof {
        lemma_fraction_of(along, spread, 900_000);
        lemma_fraction_of(across, spread, 900_000);
        assert(along.raw * spread.raw == spread.raw * along.raw) by (nonlinear_arith);
        assert(across.raw * spread.raw == spread.raw * across.raw) by (nonlinear_arith);
        assert(in_cell(center.x, a as int));
        assert(in_cell(center.z, b as int));
        assert(center == cell_point(a, b, along, across));
    }
    if center.minus(Point3::new(Scalar::from_int(4), radius, zero)).length().raw <= 900_000 {
        assert(placed(cell_point(a, b, along, across), None));
        return None;
    }
    let material = random_material(rng);
    let ball = if moving && draw_between(rng, 0, 4) == 0 {
        let rise = draw_within(rng, Scalar::new(100_000), Scalar::new(300_000));
        let center1 = center.offset(Vec3::new(zero, rise, zero));
        AnyHittable::Moving(
            MovingSphere::new(center, center1, zero, Scalar::from_int(1), radius, material),
        )
    } else {
        AnyHittable::Sphere(Sphere::new(center, radius, material))
    };
    assert(placed(cell_point(a, b, along, across), Some(ball)));
    Some(ball)
}

/// Where the small ball of the cell `(a, b)` of the ground stands for the
/// two draws `along` and `across` from `[0, 1)`: on the ground, nine
/// tenths of each draw beyond the corner of the cell.
pub open spec fn cell_point(a: i32, b: i32, along: Scalar, across: Scalar) -> Point3 {
    Point3 {
        x: Scalar::from_int(a).plus((Scalar { raw: 900_000 }).times(along)),
        y: Scalar { raw: 200_000 },
        z: Scalar::from_int(b).plus((Scalar { raw: 900_000 }).times(across)),
    }
}

/// Where a sphere is when the shutter opens.
pub open spec fn start_of(h: AnyHittable) -> Point3 {
    match h {
        AnyHittable::Sphere(s) => s.spec_center(),
        AnyHittable::Moving(s) => s.spec_center0(),
        AnyHittable::Node(n) => arbitrary(),
    }
}

/// Whether `r` is what becomes of the small ball that was drawn to stand
/// at `place`: nothing where it would not keep clear of the big metal
/// ball, and otherwise a ball that starts at that place.
pub open spec fn placed(place: Point3, r: Option<AnyHittable>) -> bool {
    match r {
        None => !keeps_clear(place),
        Some(h) => keeps_clear(place) && start_of(h) == place,
    }
}

/// A cover scene on the given ground.
fn cover_scene(ground: AnyMaterial, rng: &mut StdRng, moving: bool) -> (r: World)
    ensures
        is_cover_layout(r.hittables@),
        has_cover_materials(r.hittables@),
        material_of(r.hittables@[0]) == ground,
        !moving ==> forall|i: int|
            0 <= i < r.hittables@.len() ==> (#[trigger] r.hittables@[i]) is Sphere,
{
    let zero = Scalar::new(0);
    let one = Scalar::from_int(1);
    let mut hittables: Vec<AnyHittable> = Vec::new();
    hittables.push(
        AnyHittable::Sphere(
            Sphere::new(Point3::new(zero, Scalar::from_int(-1000), zero), Scalar::from_int(1000), ground),
        ),
    );
    let ghost first = hittables@[0];
    let mut a: i32 = -11;
    while a < 11
        invariant
            -11 <= a <= 11,
            1 <= hittables@.len() <= 1 + (a + 11) * 22,
            hittables@[0] == first,
            forall|i: int| 1 <= i < hittables@.len() ==> is_small_ball(#[trigger] hittables@[i]),
            !moving ==> forall|i: int|
                0 <= i < hittables@.len() ==> (#[trigger] hittables@[i]) is Sphere,
        decreases 11 - a,
    {
        let mut b: i32 = -11;
        while b < 11
            invariant
                -11 <= a < 11,
                -11 <= b <= 11,
                1 <= hittables@.len() <= 1 + (a + 11) * 22 + (b + 11),
                hittables@[0] == first,
                forall|i: int| 1 <= i < hittables@.len() ==> is_small_ball(#[trigger] hittables@[i]),
                !moving ==> forall|i: int|
                    0 <= i < hittables@.len() ==> (#[trigger] hittables@[i]) is Sphere,
            decreases 11 - b,
        {
            match small_ball(rng, a, b, moving) {
                Some(ball) => {
                    hittables.push(ball);
                },
                None => {},
            }
            b += 1;
        }
        a += 1;
    }
    hittables.push(
        AnyHittable::Sphere(
            Sphere::new(
                Point3::new(zero, one, zero),
                one,
                AnyMaterial::Dielectric(Dielectric::new(Scalar::new(1_500_000))),
            ),
        ),
    );
    hittables.push(
        AnyHittable::Sphere(
            Sphere::new(
                Point3::new(Scalar::from_int(-4), one, zero),
                one,
                AnyMaterial::Lambertian(
                    Lambertian::new(
                        AnyTexture::Solid(
                            SolidColor::new(
                                Color::new(
                                    Scalar::new(400_000),
                                    Scalar::new(200_000),
                                    Scalar::new(100_000),
                                ),
                            ),
                        ),
                    ),
                ),
            ),
        ),
    );
    hittables.push(
        AnyHittable::Sphere(
            Sphere::new(
                Point3::new(Scalar::from_int(4), one, zero),
                one,
                AnyMaterial::Metal(
                    Metal::new(
                        Color::new(Scalar::new(700_000), Scalar::new(600_000), Scalar::new(500_000)),
                        zero,
                    ),
                ),
            ),
        ),
    );
    World { hittables }
}

impl World {
    /// The scene of the cover picture: small balls of random materials
    /// scattered over grey ground around three big balls of glass, of matt
    /// brown and of metal.
    pub fn cover_world(rng: &mut StdRng) -> (r: World)
        ensures
            is_cover_layout(r.hittables@),
            has_cover_materials(r.hittables@),
            is_matt(material_of(r.hittables@[0]), grey()),
            forall|i: int| 0 <= i < r.hittables@.len() ==> (#[trigger] r.hittables@[i]) is Sphere,
    {
        let grey = Color::new(Scalar::new(500_000), Scalar::new(500_000), Scalar::new(500_000));
        let ground = AnyMaterial::Lambertian(
            Lambertian::new(AnyTexture::Solid(SolidColor::new(grey))),
        );
        cover_scene(ground, rng, false)
    }

    /// The scene of the cover picture in which one small ball in four
    /// rises while the shutter is open.
    pub fn moving_cover_world(rng: &mut StdRng) -> (r: World)
        ensures
            is_cover_layout(r.hittables@),
            has_cover_materials(r.hittables@),
            is_matt(material_of(r.hittables@[0]), grey()),
    {
        let grey = Color::new(Scalar::new(500_000), Scalar::new(500_000), Scalar::new(500_000));
        let ground = AnyMaterial::Lambertian(
            Lambertian::new(AnyTexture::Solid(SolidColor::new(grey))),
        );
        cover_scene(ground, rng, true)
    }

    /// The scene with rising balls on chequered ground.
    pub fn checkered_cover_world(rng: &mut StdRng) -> (r: World)
        ensures
            is_cover_layout(r.hittables@),
            has_cover_materials(r.hittables@),
            is_chequered(
                material_of(r.hittables@[0]),
                Color {
                    red: Scalar { raw: 200_000 },
                    green: Scalar { raw: 300_000 },
                    blue: Scalar { raw: 100_000 },
                },
                Color {
                    red: Scalar { raw: 900_000 },
                    green: Scalar { raw: 900_000 },
                    blue: Scalar { raw: 900_000 },
                },
            ),
    {
        let odd = Color::new(Scalar::new(200_000), Scalar::new(300_000), Scalar::new(100_000));
        let even = Color::new(Scalar::new(900_000), Scalar::new(900_000), Scalar::new(900_000));
        let ground = AnyMaterial::Lambertian(
            Lambertian::new(AnyTexture::Checker(Checker::new(odd, even))),
        );
        cover_scene(ground, rng, true)
    }

    /// A globe that wears the given picture, above dark ground and below a
    /// red lamp.
    pub fn earth(texture: ImageTexture) -> (r: World)
        ensures
            r.hittables@.len() == 3,
            is_ball(
                r.hittables@[0],
                Point3 { x: Scalar { raw: 0 }, y: Scalar { raw: 0 }, z: Scalar { raw: 0 } },
                Scalar::from_int(2),
            ),
            is_ball(
                r.hittables@[1],
                Point3 { x: Scalar { raw: 0 }, y: Scalar::from_int(1005).negated(), z: Scalar { raw: 0 } },
                Scalar::from_int(1000),
            ),
            is_ball(
                r.hittables@[2],
                Point3 { x: Scalar { raw: 0 }, y: Scalar::from_int(3), z: Scalar::from_int(1) },
                Scalar::from_int(1),
            ),
            match material_of(r.hittables@[0]) {
                AnyMaterial::Lambertian(l) => l.spec_albedo() == AnyTexture::Image(texture),
                _ => false,
            },
            is_matt(
                material_of(r.hittables@[1]),
                Color {
                    red: Scalar { raw: 100_000 },
                    green: Scalar { raw: 100_000 },
                    blue: Scalar { raw: 100_000 },
                },
            ),
            is_lamp(
                material_of(r.hittables@[2]),
                Color {
                    red: Scalar::from_int(100),
                    green: Scalar::from_int(20),
                    blue: Scalar::from_int(20),
                },
            ),
    {
        let zero = Scalar::new(0);
        let one = Scalar::from_int(1);
        let mut hittables: Vec<AnyHittable> = Vec::new();
        hittables.push(
            AnyHittable::Sphere(
                Sphere::new(
                    Point3::new(zero, zero, zero),
                    Scalar::from_int(2),
                    AnyMaterial::Lambertian(Lambertian::new(AnyTexture::Image(texture))),
                ),
            ),
        );
        let dark = Color::new(Scalar::new(100_000), Scalar::new(100_000), Scalar::new(100_000));
        hittables.push(
            AnyHittable::Sphere(
                Sphere::new(
                    Point3::new(zero, Scalar::from_int(-1005), zero),
                    Scalar::from_int(1000),
                    AnyMaterial::Lambertian(Lambertian::new(AnyTexture::Solid(SolidColor::new(dark)))),
                ),
            ),
        );
        let red = Color::new(one, zero, zero);
        let glow = Color::new(Scalar::from_int(100), Scalar::from_int(20), Scalar::from_int(20));
        hittables.push(
            AnyHittable::Sphere(
                Sphere::new(
                    Point3::new(zero, Scalar::from_int(3), one),
                    one,
                    AnyMaterial::Light(Light::new(AnyTexture::Solid(SolidColor::new(red)), glow)),
                ),
            ),
        );
        World { hittables }
    }

    /// A scene without objects.
    pub fn new() -> (r: World)
        ensures
            r.hittables@.len() == 0,
    {
        World { hittables: Vec::new() }
    }

    /// The closest hit of the ray on any object of the scene.
    pub fn hit(&self, ray: &Ray, t_min: Scalar, t_max: Scalar) -> (r: Option<HitRecord>)
        ensures
            r == scan(self.hittables@, *ray, t_min, t_max),
    {
        let mut best: Option<HitRecord> = None;
        let mut i: usize = 0;
        assert(self.hittables@.take(0) =~= Seq::<AnyHittable>::empty());
        while i < self.hittables.len()
            invariant
                i <= self.hittables@.len(),
                best == scan(self.hittables@.take(i as int), *ray, t_min, t_max),
            decreases self.hittables@.len() - i,
        {
            let found = self.hittables[i].hit(ray, t_min, t_max);
            proof {
                let next = self.hittables@.take(i as int + 1);
                assert(next.drop_last() =~= self.hittables@.take(i as int));
                assert(next.last() == self.hittables@[i as int]);
            }
            best = match (found, best) {
                (Some(a), Some(b)) => if a.t.raw < b.t.raw {
                    Some(a)
                } else {
                    Some(b)
                },
                (Some(a), None) => Some(a),
                (None, Some(b)) => Some(b),
                (None, None) => None,
            };
            i += 1;
        }
        assert(self.hittables@.take(i as int) =~= self.hittables@);
        best
    }

    /// Adds an object at the end of the scene.
    pub fn add(&mut self, hittable: AnyHittable)
        ensures
            final(self).hittables@ == old(self).hittables@.push(hittable),
    {
        self.hittables.push(hittable);
    }
}

impl Default for World {
    fn default() -> (r: World)
        ensures
            r.hittables@.len() == 0,
    {
        World { hittables: Vec::new() }
    }
}

} // verus!
