//! Textures: the colour of a surface as a function of where it is hit.
use crate::scalar::{floor_div, Scalar, SCALE};
use crate::vec3::{Color, Point3, Vec3};
use vstd::prelude::*;

verus! {

/// Half a turn, the length of one lobe of the sine, in millionths.
pub const HALF_TURN: i64 = 3_141_593;

/// The sign of the sine of an angle, told by the lobe in which the angle
/// falls: lobes of even number are positive, lobes of odd number negative,
/// and the sine is zero where two lobes meet.
pub open spec fn sine_sign(angle: Scalar) -> int {
    if angle.raw as int % HALF_TURN as int == 0 {
        0
    } else if (angle.raw as int / HALF_TURN as int) % 2 == 0 {
        1
    } else {
        -1
    }
}

/// The sign of the product of the sines of ten times each coordinate.
pub open spec fn checker_sign(point: Point3) -> int {
    sine_sign(Scalar::from_int(10).times(point.x)) * sine_sign(
        Scalar::from_int(10).times(point.y),
    ) * sine_sign(Scalar::from_int(10).times(point.z))
}

/// A value in `(-1, 1)` that jumps about as `a` and `b` change, made by
/// repeatedly keeping the fractional part of products.
pub open spec fn hash_12(a: Scalar, b: Scalar) -> Scalar {
    let k = Scalar { raw: 103_100 };
    let w = Scalar { raw: 33_330_000 };
    let px = a.times(k).fract();
    let py = b.times(k).fract();
    let pz = a.times(k).fract();
    let p = Vec3 { x: px, y: py, z: pz };
    let to_add = p.dot(Vec3 { x: py.plus(w), y: pz.plus(w), z: px.plus(w) });
    px.plus(to_add).plus(py.plus(to_add)).times(pz.plus(to_add)).fract()
}

/// `u` clamped to `[0, 1]`.
pub open spec fn clamp_unit(u: Scalar) -> Scalar {
    u.greatest(Scalar { raw: 0 }).least(Scalar::from_int(1))
}

/// The index of the cell, of `cells` cells that divide `[0, 1]` evenly, in
/// which `u` falls; the last cell includes its upper end.
pub open spec fn cell_of(cells: u32, u: Scalar) -> int {
    let scaled = (cells * u.raw) / (SCALE as int);
    if scaled >= cells {
        cells - 1
    } else {
        scaled
    }
}

/// The channel value that a stored byte stands for: `byte / 256`.
pub open spec fn byte_level(byte: u8) -> Scalar {
    Scalar::from_u32(byte as u32).over(Scalar::from_int(256))
}

/// A map from a position on a surface to a colour.
pub trait Texture {
    /// The colour at surface coordinates `(u, v)` and position `point`.
    spec fn color_at(&self, u: Scalar, v: Scalar, point: Point3) -> Color;

    fn value(&self, u: Scalar, v: Scalar, point: Point3) -> (r: Color)
        ensures
            r == self.color_at(u, v, point),
    ;
}

/// One colour everywhere.
#[derive(Clone, Copy, Debug)]
pub struct SolidColor {
    color: Color,
}

/// Two colours that alternate in space in a chequered pattern.
#[derive(Clone, Copy, Debug)]
pub struct Checker {
    odd: Color,
    even: Color,
}

/// A bitmap of `width` by `height` pixels of three bytes each, stored row
/// by row from the top, and looked up by the nearest pixel.
#[derive(Debug)]
pub struct ImageTexture {
    width: u32,
    height: u32,
    pixels: Vec<u8>,
}

/// White stars scattered over a black background.
#[derive(Clone, Copy, Debug)]
pub struct StarTexture {}

/// Any of the textures of this library.
#[derive(Debug)]
pub enum AnyTexture {
    Solid(SolidColor),
    Checker(Checker),
    Image(ImageTexture),
    Star(StarTexture),
}

fn sign_of_sine(angle: Scalar) -> (r: i8)
    ensures
        r == sine_sign(angle),
{
    let k: i128 = floor_div(angle.raw as i128, 3_141_593);
    let m: i128 = angle.raw as i128 - k * 3_141_593;
    proof {
        vstd::arithmetic::div_mod::lemma_fundamental_div_mod(angle.raw as int, 3_141_593);
    }
    if m == 0 {
        0
    } else if k % 2 == 0 {
        1
    } else {
        -1
    }
}

fn star_hash(a: Scalar, b: Scalar) -> (r: Scalar)
    ensures
        r == hash_12(a, b),
{
    let k = Scalar::new(103_100);
    let w = Scalar::new(33_330_000);
    let px = a.times(k).fract();
    let py = b.times(k).fract();
    let pz = a.times(k).fract();
    let p = Vec3::new(px, py, pz);
    let to_add = p.dot(Vec3::new(py.plus(w), pz.plus(w), px.plus(w)));
    px.plus(to_add).plus(py.plus(to_add)).times(pz.plus(to_add)).fract()
}

fn cell_index(cells: u32, u: Scalar) -> (r: u32)
    requires
        cells > 0,
        0 <= u.raw <= SCALE,
    ensures
        r == cell_of(cells, u),
        r < cells,
{
    assert(0 <= cells * u.raw <= 0xffff_ffff * 1_000_000) by (nonlinear_arith)
        requires
            0 < cells <= 0xffff_ffff,
            0 <= u.raw <= 1_000_000,
    ;
    let prod: i128 = cells as i128 * u.raw as i128;
    let scaled: i128 = prod / 1_000_000;
    if scaled >= cells as i128 {
        cells - 1
    } else {
        scaled as u32
    }
}

impl SolidColor {
    pub closed spec fn spec_color(&self) -> Color {
        self.color
    }

    pub fn new(color: Color) -> (r: SolidColor)
        ensures
            r.spec_color() == color,
    {
        SolidColor { color }
    }
}

impl Texture for SolidColor {
    open spec fn color_at(&self, u: Scalar, v: Scalar, point: Point3) -> Color {
        self.spec_color()
    }

    fn value(&self, u: Scalar, v: Scalar, point: Point3) -> (r: Color) {
        self.color
    }
}

impl Checker {
    pub closed spec fn spec_odd(&self) -> Color {
        self.odd
    }

    pub closed spec fn spec_even(&self) -> Color {
        self.even
    }

    pub fn new(odd: Color, even: Color) -> (r: Checker)
        ensures
            r.spec_odd() == odd,
            r.spec_even() == even,
    {
        Checker { odd, even }
    }
}

impl Texture for Checker {
    open spec fn color_at(&self, u: Scalar, v: Scalar, point: Point3) -> Color {
        if checker_sign(point) < 0 {
            self.spec_odd()
        } else {
            self.spec_even()
        }
    }

    fn value(&self, u: Scalar, v: Scalar, point: Point3) -> (r: Color) {
        let ten = Scalar::from_int(10);
        let sx: i8 = sign_of_sine(ten.times(point.x));
        let sy: i8 = sign_of_sine(ten.times(point.y));
        let sz: i8 = sign_of_sine(ten.times(point.z));
        assert(-1 <= sx * sy <= 1 && -1 <= (sx * sy) * sz <= 1) by (nonlinear_arith)
            requires
                -1 <= sx <= 1,
                -1 <= sy <= 1,
                -1 <= sz <= 1,
        ;
        let sines: i8 = sx * sy * sz;
        if sines < 0 {
            self.odd
        } else {
            self.even
        }
    }
}

impl ImageTexture {
    #[verifier::type_invariant]
    spec fn inv(self) -> bool {
        &&& self.width > 0
        &&& self.height > 0
        &&& self.pixels@.len() == 3 * self.width * self.height
    }

    pub closed spec fn spec_width(&self) -> u32 {
        self.width
    }

    pub closed spec fn spec_height(&self) -> u32 {
        self.height
    }

    pub closed spec fn spec_pixels(&self) -> Seq<u8> {
        self.pixels@
    }

    /// Whether `pixels` is a bitmap of `width` by `height` pixels.
    pub open spec fn fits(width: u32, height: u32, pixels: Seq<u8>) -> bool {
        width > 0 && height > 0 && pixels.len() == 3 * width * height
    }

    /// The colour stored for the pixel in column `x` of row `y`.
    pub open spec fn texel(&self, x: int, y: int) -> Color {
        let at = 3 * (y * self.spec_width() + x);
        Color {
            red: byte_level(self.spec_pixels()[at]),
            green: byte_level(self.spec_pixels()[at + 1]),
            blue: byte_level(self.spec_pixels()[at + 2]),
        }
    }

    /// A texture over the given bitmap, if the buffer has the right length
    /// for a bitmap of that size and the bitmap is not empty.
    pub fn new(width: u32, height: u32, pixels: Vec<u8>) -> (r: Option<ImageTexture>)
        ensures
            r.is_some() == Self::fits(width, height, pixels@),
            r.is_some() ==> r.unwrap().spec_width() == width && r.unwrap().spec_height() == height
                && r.unwrap().spec_pixels() == pixels@,
    {
        if width == 0 || height == 0 {
            return None;
        }
        assert(width * height <= 0xffff_ffff * 0xffff_ffff) by (nonlinear_arith)
            requires
                width <= 0xffff_ffff,
                height <= 0xffff_ffff,
        ;
        let area: u128 = width as u128 * height as u128;
        let want: u128 = 3 * area;
        assert(3 * width * height == 3 * (width * height)) by (nonlinear_arith);
        if pixels.len() as u128 != want {
            return None;
        }
        Some(ImageTexture { width, height, pixels })
    }
}

impl Texture for ImageTexture {
    open spec fn color_at(&self, u: Scalar, v: Scalar, point: Point3) -> Color {
        self.texel(
            cell_of(self.spec_width(), clamp_unit(u)),
            cell_of(self.spec_height(), Scalar::from_int(1).minus(clamp_unit(v))),
        )
    }

    fn value(&self, u: Scalar, v: Scalar, point: Point3) -> (r: Color) {
        proof {
            use_type_invariant(self);
        }
        let one = Scalar::from_int(1);
        let u = u.greatest(Scalar::new(0)).least(one);
        let v = one.minus(v.greatest(Scalar::new(0)).least(one));
        let x: usize = cell_index(self.width, u) as usize;
        let y: usize = cell_index(self.height, v) as usize;
        let w: usize = self.width as usize;
        let len: usize = self.pixels.len();
        let ghost h = self.height as int;
        assert(len == 3 * (w * h)) by (nonlinear_arith)
            requires
                len == 3 * w * h,
        ;
        assert(0 <= y * w && y * w + x < w * h) by (nonlinear_arith)
            requires
                0 <= x < w,
                0 <= y < h,
        ;
        let at: usize = 3 * (y * w + x);
        let level = Scalar::from_int(256);
        Color {
            red: Scalar::from_u32(self.pixels[at] as u32).over(level),
            green: Scalar::from_u32(self.pixels[at + 1] as u32).over(level),
            blue: Scalar::from_u32(self.pixels[at + 2] as u32).over(level),
        }
    }
}

impl StarTexture {
    /// A star field. The pattern is fixed: neither the seed nor the count
    /// changes it.
    pub fn new(seed: u64, count: u32) -> (r: StarTexture) {
        StarTexture {  }
    }
}

impl Texture for StarTexture {
    open spec fn color_at(&self, u: Scalar, v: Scalar, point: Point3) -> Color {
        if hash_12(u, v).raw > 800_000 {
            Color { red: Scalar::from_int(1), green: Scalar::from_int(1), blue: Scalar::from_int(1) }
        } else {
            Color::black()
        }
    }

    fn value(&self, u: Scalar, v: Scalar, point: Point3) -> (r: Color) {
        if star_hash(u, v).raw > 800_000 {
            let one = Scalar::from_int(1);
            Color { red: one, green: one, blue: one }
        } else {
            Color::default()
        }
    }
}

impl Texture for AnyTexture {
    open spec fn color_at(&self, u: Scalar, v: Scalar, point: Point3) -> Color {
        match self {
            AnyTexture::Solid(t) => t.color_at(u, v, point),
            AnyTexture::Checker(t) => t.color_at(u, v, point),
            AnyTexture::Image(t) => t.color_at(u, v, point),
            AnyTexture::Star(t) => t.color_at(u, v, point),
        }
    }

    fn value(&self, u: Scalar, v: Scalar, point: Point3) -> (r: Color) {
        match self {
            AnyTexture::Solid(t) => t.value(u, v, point),
            AnyTexture::Checker(t) => t.value(u, v, point),
            AnyTexture::Image(t) => t.value(u, v, point),
            AnyTexture::Star(t) => t.value(u, v, point),
        }
    }
}

} // verus!
