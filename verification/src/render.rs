//! The estimate of the light that arrives along a ray, and the driver that
//! turns a scene into a picture.
//!
//! What a render returns depends on random draws, so its contracts say
//! which results are possible: each is the result of the same computation
//! for some values of the draws.
use crate::bvh::AnyHittable;
use crate::camera::{Camera, CameraSettings};
use crate::hittable::HitRecord;
use crate::image::Image;
use crate::material::{white, Material};
use crate::ray::Ray;
use crate::sampling::{draw_unit, fresh_seed, seeded};
use crate::scalar::{Scalar, RAW_MAX, SCALE};
use crate::vec3::{Color, Vec3};
use crate::world::{scan, World};
use rand::rngs::StdRng;
use rayon::iter::{IntoParallelIterator, ParallelIterator};
use vstd::prelude::*;

verus! {

/// After this many bounces a path is cut off and counts as black.
pub const MAX_CHILD_RAY_DEPTH: u32 = 50;

/// How many rays are averaged for one pixel.
pub const SAMPLES_PER_PIXEL: u32 = 100;

/// Hits closer than this to the origin of a ray are ignored, so that a
/// scattered ray does not hit the surface that it leaves.
pub open spec fn near_limit() -> Scalar {
    Scalar { raw: 1_000 }
}

/// The far end of every ray.
pub open spec fn far_limit() -> Scalar {
    Scalar { raw: RAW_MAX }
}

/// The colour of the sky in the direction of a ray: white at the horizon,
/// blending into blue towards the zenith with the height of the unit
/// direction.
pub open spec fn spec_sky(ray: &Ray) -> Color {
    let one = Scalar::from_int(1);
    let unit_dir = ray.dir.unit_vector();
    let t = (Scalar { raw: 500_000 }).times(unit_dir.y.plus(one));
    white().scaled(one.minus(t)).plus(
        (Color {
            red: Scalar { raw: 500_000 },
            green: Scalar { raw: 700_000 },
            blue: Scalar { raw: 1_000_000 },
        }).scaled(t),
    )
}

#[verifier::when_used_as_spec(spec_sky)]
pub fn sky(ray: &Ray) -> (r: Color)
    ensures
        r == spec_sky(ray),
{
    let one = Scalar::from_int(1);
    let unit_dir = ray.dir.unit_vector();
    let t = Scalar::new(500_000).times(unit_dir.y.plus(one));
    Color::new(one, one, one).scaled(one.minus(t)).plus(
        Color::new(Scalar::new(500_000), Scalar::new(700_000), Scalar::new(1_000_000)).scaled(t),
    )
}

/// The estimate for a ray that hit a surface, given what the material
/// made of it and what the scattered ray, if there is one, carries: black
/// where the ray was absorbed, and otherwise what the scattered ray
/// carries, filtered by the attenuation.
pub open spec fn bounce(outcome: Option<(Ray, Color)>, deeper: Color) -> Color {
    match outcome {
        None => Color::black(),
        Some((next, attenuation)) => attenuation.times(deeper),
    }
}

/// Whether `c` is a possible estimate of the light that arrives along
/// `ray` after `depth` bounces. A path of `MAX_CHILD_RAY_DEPTH` bounces is
/// black. A ray that hits nothing sees the sky. For a ray that hits a
/// surface there are draws `jitter` and `coin` that the material allows
/// and an estimate `deeper` that is possible for the scattered ray, if
/// there is one, such that `c` is the bounce of the two.
pub open spec fn radiance_possible(items: Seq<AnyHittable>, ray: Ray, depth: nat, c: Color) -> bool
    decreases MAX_CHILD_RAY_DEPTH - depth,
{
    if depth >= MAX_CHILD_RAY_DEPTH {
        c == Color::black()
    } else {
        match scan(items, ray, near_limit(), far_limit()) {
            None => c == sky(&ray),
            Some(rec) => exists|jitter: Vec3, coin: Scalar, deeper: Color|
                #![trigger bounce(rec.material.scatter_given(ray, rec, jitter, coin), deeper)]
                {
                    let outcome = rec.material.scatter_given(ray, rec, jitter, coin);
                    &&& rec.material.draws_allowed(jitter, coin)
                    &&& c == bounce(outcome, deeper)
                    &&& match outcome {
                        None => true,
                        Some((next, attenuation)) => radiance_possible(
                            items,
                            next,
                            depth + 1,
                            deeper,
                        ),
                    }
                },
        }
    }
}

/// The law by which estimates are built up from a hit: for any draws, the
/// bounce of what the material does and of a possible estimate for the
/// scattered ray is a possible estimate for the ray.
pub proof fn lemma_bounce(
    items: Seq<AnyHittable>,
    ray: Ray,
    rec: HitRecord,
    depth: nat,
    jitter: Vec3,
    coin: Scalar,
    deeper: Color,
)
    requires
        depth < MAX_CHILD_RAY_DEPTH,
        scan(items, ray, near_limit(), far_limit()) == Some(rec),
        rec.material.draws_allowed(jitter, coin),
        match rec.material.scatter_given(ray, rec, jitter, coin) {
            None => true,
            Some((next, attenuation)) => radiance_possible(items, next, depth + 1, deeper),
        },
    ensures
        radiance_possible(
            items,
            ray,
            depth,
            bounce(rec.material.scatter_given(ray, rec, jitter, coin), deeper),
        ),
{
    let outcome = rec.material.scatter_given(ray, rec, jitter, coin);
    let c = bounce(outcome, deeper);
    assert(c == bounce(rec.material.scatter_given(ray, rec, jitter, coin), deeper));
}

/// An estimate of the light that arrives along a ray, by following one
/// random path through the scene.
pub fn ray_color(ray: &Ray, world: &World, rng: &mut StdRng, depth: u32) -> (r: Color)
    ensures
        radiance_possible(world.hittables@, *ray, depth as nat, r),
    decreases MAX_CHILD_RAY_DEPTH - depth,
{
    if depth >= MAX_CHILD_RAY_DEPTH {
        return Color::default();
    }
    let found = world.hit(ray, Scalar::new(1_000), Scalar::new(RAW_MAX));
    match found {
        Some(rec) => {
            let scattered = rec.material.scatter(ray, &rec, rng);
            let ghost (jitter, coin) = choose|jitter: Vec3, coin: Scalar|
                rec.material.draws_allowed(jitter, coin) && scattered
                    == #[trigger] rec.material.scatter_given(
                    *ray,
                    rec,
                    jitter,
                    coin,
                );
            match scattered {
                Some((next, attenuation)) => {
                    let deeper = ray_color(&next, world, rng, depth + 1);
                    proof {
                        lemma_bounce(
                            world.hittables@,
                            *ray,
                            rec,
                            depth as nat,
                            jitter,
                            coin,
                            deeper,
                        );
                    }
                    attenuation.times(deeper)
                },
                None => {
                    proof {
                        lemma_bounce(
                            world.hittables@,
                            *ray,
                            rec,
                            depth as nat,
                            jitter,
                            coin,
                            Color::black(),
                        );
                    }
                    Color::default()
                },
            }
        },
        None => sky(ray),
    }
}

/// The seed of the stream of draws for the pixel in column `i` of line
/// `j`, counted from the bottom: every pixel has a stream of its own.
pub open spec fn pixel_seed(seed: u64, width: u32, i: u32, j: u32) -> u64 {
    ((seed + j * width + i) % 0x1_0000_0000_0000_0000) as u64
}

/// The viewport coordinate of a sample that lies `d` of a pixel beyond the
/// start of pixel `i`, where `n` pixels span the viewport.
pub open spec fn viewport_coord(i: u32, d: Scalar, n: u32) -> Scalar {
    Scalar::from_u32(i).plus(d).over(Scalar::from_u32((n - 1) as u32))
}

/// Whether `c` is a possible estimate for one sample of the pixel in
/// column `i` of line `j`: a possible estimate for a ray that the camera
/// casts through some point of that pixel.
pub open spec fn sample_possible(
    items: Seq<AnyHittable>,
    camera: Camera,
    width: u32,
    height: u32,
    i: u32,
    j: u32,
    c: Color,
) -> bool {
    exists|du: Scalar, dv: Scalar, lens: Vec3, time: Scalar|
        {
            &&& 0 <= du.raw < SCALE
            &&& 0 <= dv.raw < SCALE
            &&& lens.z.raw == 0
            &&& lens.length_squared().raw < SCALE
            &&& radiance_possible(
                items,
                #[trigger] camera.spec_ray_through(
                    viewport_coord(i, du, width),
                    viewport_coord(j, dv, height),
                    lens,
                    time,
                ),
                0,
                c,
            )
        }
}

/// Whether `total` is a possible sum of `n` samples of a pixel.
pub open spec fn total_possible(
    items: Seq<AnyHittable>,
    camera: Camera,
    width: u32,
    height: u32,
    i: u32,
    j: u32,
    n: nat,
    total: Color,
) -> bool
    decreases n,
{
    if n == 0 {
        total == Color::black()
    } else {
        exists|before: Color, c: Color|
            {
                &&& total == #[trigger] before.spec_plus(c)
                &&& total_possible(items, camera, width, height, i, j, (n - 1) as nat, before)
                &&& sample_possible(items, camera, width, height, i, j, c)
            }
    }
}

/// Whether `c` is a possible colour of a pixel: a possible sum of
/// `samples` samples, divided by their number.
pub open spec fn pixel_possible(
    items: Seq<AnyHittable>,
    camera: Camera,
    width: u32,
    height: u32,
    samples: u32,
    i: u32,
    j: u32,
    c: Color,
) -> bool {
    exists|total: Color|
        total_possible(items, camera, width, height, i, j, samples as nat, total) && c
            == #[trigger] total.spec_divided(Scalar::from_u32(samples))
}

/// Whether `row` is a possible line `j` of a picture.
pub open spec fn row_possible(
    items: Seq<AnyHittable>,
    camera: Camera,
    width: u32,
    height: u32,
    samples: u32,
    j: u32,
    row: Seq<Color>,
) -> bool {
    &&& row.len() == width
    &&& forall|i: int|
        0 <= i < width ==> pixel_possible(
            items,
            camera,
            width,
            height,
            samples,
            i as u32,
            j,
            #[trigger] row[i],
        )
}

fn seed_of_pixel(seed: u64, width: u32, i: u32, j: u32) -> (r: u64)
    ensures
        r == pixel_seed(seed, width, i, j),
{
    assert(0 <= j * width <= 0xffff_ffff * 0xffff_ffff) by (nonlinear_arith)
        requires
            0 <= j <= 0xffff_ffff,
            0 <= width <= 0xffff_ffff,
    ;
    let offset: u128 = j as u128 * width as u128 + i as u128;
    ((seed as u128 + offset) % 0x1_0000_0000_0000_0000) as u64
}

/// The colour of one sample of a pixel.
fn render_sample(
    world: &World,
    camera: &Camera,
    width: u32,
    height: u32,
    i: u32,
    j: u32,
    rng: &mut StdRng,
) -> (r: Color)
    requires
        i < width,
        j < height,
    ensures
        sample_possible(world.hittables@, *camera, width, height, i, j, r),
{
    let du = draw_unit(rng);
    let dv = draw_unit(rng);
    let u = Scalar::from_u32(i).plus(du).over(Scalar::from_u32(width - 1));
    let v = Scalar::from_u32(j).plus(dv).over(Scalar::from_u32(height - 1));
    let ray = camera.get_ray(u, v, rng);
    let r = ray_color(&ray, world, rng, 0);
    proof {
        let (lens, time) = choose|lens: Vec3, time: Scalar|
            lens.z.raw == 0 && lens.length_squared().raw < SCALE && ray
                == #[trigger] camera.spec_ray_through(u, v, lens, time);
        assert(ray == camera.spec_ray_through(
            viewport_coord(i, du, width),
            viewport_coord(j, dv, height),
            lens,
            time,
        ));
    }
    r
}

/// The colour of the pixel in column `i` of line `j`, counted from the
/// bottom: the mean of `samples` samples, drawn from the stream of that
/// pixel.
pub fn render_pixel(
    world: &World,
    camera: &Camera,
    width: u32,
    height: u32,
    samples: u32,
    seed: u64,
    i: u32,
    j: u32,
) -> (r: Color)
    requires
        i < width,
        j < height,
    ensures
        pixel_possible(world.hittables@, *camera, width, height, samples, i, j, r),
{
    let mut rng = seeded(seed_of_pixel(seed, width, i, j));
    let mut total = Color::default();
    let mut k: u32 = 0;
    while k < samples
        invariant
            k <= samples,
            i < width,
            j < height,
            total_possible(world.hittables@, *camera, width, height, i, j, k as nat, total),
        decreases samples - k,
    {
        let c = render_sample(world, camera, width, height, i, j, &mut rng);
        let ghost before = total;
        total = total.plus(c);
        assert(total == before.spec_plus(c));
        k += 1;
    }
    let r = total.divided(Scalar::from_u32(samples));
    assert(r == total.spec_divided(Scalar::from_u32(samples)));
    r
}

/// Line `j` of the picture, counted from the bottom, from left to right.
pub fn render_row(
    world: &World,
    camera: &Camera,
    width: u32,
    height: u32,
    samples: u32,
    seed: u64,
    j: u32,
) -> (r: Vec<Color>)
    requires
        j < height,
    ensures
        row_possible(world.hittables@, *camera, width, height, samples, j, r@),
{
    let mut row: Vec<Color> = Vec::new();
    let mut i: u32 = 0;
    while i < width
        invariant
            i <= width,
            j < height,
            row@.len() == i,
            forall|k: int|
                0 <= k < i ==> pixel_possible(
                    world.hittables@,
                    *camera,
                    width,
                    height,
                    samples,
                    k as u32,
                    j,
                    #[trigger] row@[k],
                ),
        decreases width - i,
    {
        let c = render_pixel(world, camera, width, height, samples, seed, i, j);
        row.push(c);
        i += 1;
    }
    row
}

/// Hands the lines of the picture out to the workers of the crate rayon:
/// `into_par_iter` on the range of the line numbers, `map` with a closure
/// that renders one line, and `collect` into a vector. The crate documents
/// that collecting a parallel range gives the vector that collecting the
/// range one by one gives, so the result has one line for every number,
/// in the order of the numbers, and each line is what `render_row`
/// returns for its number; that is all the contract claims.
#[verifier::external_body]
fn rows_in_parallel(
    world: &World,
    camera: &Camera,
    width: u32,
    height: u32,
    samples: u32,
    seed: u64,
) -> (rows: Vec<Vec<Color>>)
    ensures
        rows@.len() == height,
        forall|j: int|
            0 <= j < height ==> row_possible(
                world.hittables@,
                *camera,
                width,
                height,
                samples,
                j as u32,
                (#[trigger] rows@[j])@,
            ),
{
    (0..height).into_par_iter().map(
        |j| render_row(world, camera, width, height, samples, seed, j),
    ).collect()
}

/// Whether `image` is a possible picture of the scene: it has the given
/// size, and every pixel is a possible colour of the pixel in the same
/// column of the line that lies as far from the bottom of the frame as
/// the row of the pixel lies from the top.
pub open spec fn picture_possible(
    items: Seq<AnyHittable>,
    settings: CameraSettings,
    width: u32,
    height: u32,
    samples: u32,
    image: Image,
) -> bool {
    &&& image.width == width
    &&& image.height == height
    &&& image.wf()
    &&& forall|row: int, col: int|
        0 <= row < height && 0 <= col < width ==> pixel_possible(
            items,
            Camera::new(&settings, Scalar::from_u32(width).over(Scalar::from_u32(height))),
            width,
            height,
            samples,
            col as u32,
            (height - 1 - row) as u32,
            #[trigger] image.pixel(row, col),
        )
}

/// Renders the scene with `samples` samples for every pixel. The streams
/// of draws are derived from `seed`, so that the same seed gives the same
/// picture.
pub fn render(
    world: &World,
    camera_settings: &CameraSettings,
    image_width: u32,
    image_height: u32,
    samples: u32,
    seed: u64,
) -> (r: Image)
    ensures
        picture_possible(
            world.hittables@,
            *camera_settings,
            image_width,
            image_height,
            samples,
            r,
        ),
{
    let aspect_ratio = Scalar::from_u32(image_width).over(Scalar::from_u32(image_height));
    let camera = Camera::new(camera_settings, aspect_ratio);
    let mut rows = rows_in_parallel(world, &camera, image_width, image_height, samples, seed);
    let ghost lines = rows@;
    let mut data: Vec<Vec<Color>> = Vec::new();
    while rows.len() > 0
        invariant
            rows@.len() + data@.len() == image_height,
            rows@ == lines.take(rows@.len() as int),
            lines.len() == image_height,
            forall|k: int| 0 <= k < data@.len() ==> #[trigger] data@[k] == lines[image_height - 1 - k],
        decreases rows@.len(),
    {
        let line = rows.pop().unwrap();
        data.push(line);
    }
    let image = Image { width: image_width, height: image_height, data };
    proof {
        assert forall|row: int, col: int|
            0 <= row < image_height && 0 <= col < image_width implies pixel_possible(
            world.hittables@,
            camera,
            image_width,
            image_height,
            samples,
            col as u32,
            (image_height - 1 - row) as u32,
            #[trigger] image.pixel(row, col),
        ) by {
            let j = image_height - 1 - row;
            assert(image.data@[row] == lines[j]);
            assert(row_possible(
                world.hittables@,
                camera,
                image_width,
                image_height,
                samples,
                j as u32,
                lines[j]@,
            ));
        }
        assert forall|k: int| 0 <= k < image.data@.len() implies (#[trigger] image.data@[k])@.len()
            == image_width by {
            let j = image_height - 1 - k;
            assert(row_possible(
                world.hittables@,
                camera,
                image_width,
                image_height,
                samples,
                j as u32,
                lines[j]@,
            ));
        }
    }
    image
}

/// Renders the scene with `SAMPLES_PER_PIXEL` samples for every pixel,
/// from a seed that is drawn afresh.
pub fn raytrace_image(
    world: World,
    camera_settings: CameraSettings,
    image_width: u32,
    image_height: u32,
) -> (r: Image)
    ensures
        picture_possible(
            world.hittables@,
            camera_settings,
            image_width,
            image_height,
            SAMPLES_PER_PIXEL,
            r,
        ),
{
    let seed = fresh_seed();
    render(&world, &camera_settings, image_width, image_height, SAMPLES_PER_PIXEL, seed)
}

} // verus!
