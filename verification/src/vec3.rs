//! Directions, positions and colours: three kinds of fixed-point triples
//! that cannot be mixed up by accident.
use crate::scalar::Scalar;
use vstd::prelude::*;

verus! {

/// A triple that can be built from three components, so that one kind of
/// triple can be converted into another.
pub trait VecType: Sized {
    /// The three components, in order.
    spec fn parts(&self) -> (Scalar, Scalar, Scalar);

    fn from_params(a: Scalar, b: Scalar, c: Scalar) -> (r: Self)
        ensures
            r.parts() == (a, b, c),
    ;
}

/// A direction or displacement.
#[derive(Clone, Copy, Debug, PartialEq, Eq, Structural)]
pub struct Vec3 {
    pub x: Scalar,
    pub y: Scalar,
    pub z: Scalar,
}

/// A position.
#[derive(Clone, Copy, Debug, PartialEq, Eq, Structural)]
pub struct Point3 {
    pub x: Scalar,
    pub y: Scalar,
    pub z: Scalar,
}

/// Linear radiance in three channels.
#[derive(Clone, Copy, Debug, PartialEq, Eq, Structural)]
pub struct Color {
    pub red: Scalar,
    pub green: Scalar,
    pub blue: Scalar,
}

impl VecType for Vec3 {
    open spec fn parts(&self) -> (Scalar, Scalar, Scalar) {
        (self.x, self.y, self.z)
    }

    fn from_params(a: Scalar, b: Scalar, c: Scalar) -> (r: Self) {
        Vec3 { x: a, y: b, z: c }
    }
}

impl VecType for Point3 {
    open spec fn parts(&self) -> (Scalar, Scalar, Scalar) {
        (self.x, self.y, self.z)
    }

    fn from_params(a: Scalar, b: Scalar, c: Scalar) -> (r: Self) {
        Point3 { x: a, y: b, z: c }
    }
}

impl VecType for Color {
    open spec fn parts(&self) -> (Scalar, Scalar, Scalar) {
        (self.red, self.green, self.blue)
    }

    fn from_params(a: Scalar, b: Scalar, c: Scalar) -> (r: Self) {
        Color { red: a, green: b, blue: c }
    }
}

impl Vec3 {
    pub open spec fn spec_plus(self, other: Vec3) -> Vec3 {
        Vec3 { x: self.x.plus(other.x), y: self.y.plus(other.y), z: self.z.plus(other.z) }
    }

    pub open spec fn spec_minus(self, other: Vec3) -> Vec3 {
        Vec3 { x: self.x.minus(other.x), y: self.y.minus(other.y), z: self.z.minus(other.z) }
    }

    pub open spec fn spec_negated(self) -> Vec3 {
        Vec3 { x: self.x.negated(), y: self.y.negated(), z: self.z.negated() }
    }

    pub open spec fn spec_scaled(self, k: Scalar) -> Vec3 {
        Vec3 { x: self.x.times(k), y: self.y.times(k), z: self.z.times(k) }
    }

    pub open spec fn spec_divided(self, k: Scalar) -> Vec3 {
        Vec3 { x: self.x.over(k), y: self.y.over(k), z: self.z.over(k) }
    }

    pub open spec fn spec_dot(self, other: Vec3) -> Scalar {
        self.x.times(other.x).plus(self.y.times(other.y)).plus(self.z.times(other.z))
    }

    pub open spec fn spec_cross(self, other: Vec3) -> Vec3 {
        Vec3 {
            x: self.y.times(other.z).minus(self.z.times(other.y)),
            y: self.z.times(other.x).minus(self.x.times(other.z)),
            z: self.x.times(other.y).minus(self.y.times(other.x)),
        }
    }

    pub open spec fn spec_length_squared(self) -> Scalar {
        self.dot(self)
    }

    pub open spec fn spec_length(self) -> Scalar {
        self.length_squared().root()
    }

    pub open spec fn spec_unit_vector(self) -> Vec3 {
        self.divided(self.length())
    }

    pub open spec fn spec_to_point3(self) -> Point3 {
        Point3 { x: self.x, y: self.y, z: self.z }
    }

    /// The mirror image of `self` in the plane with the given normal:
    /// `self - 2 (self . normal) normal`.
    pub open spec fn spec_reflect(&self, normal: &Vec3) -> Vec3 {
        self.minus(normal.scaled(Scalar::from_int(2).times(self.dot(*normal))))
    }

    /// The part of the refracted direction that is parallel to the surface.
    pub open spec fn refract_parallel(self, normal: Vec3, etai_over_etat: Scalar) -> Vec3 {
        normal.scaled(self.negated().dot(normal)).plus(self).scaled(etai_over_etat)
    }

    /// The direction of `self` after it crosses a surface with the given
    /// normal and ratio of refractive indices, by Snell's law.
    pub open spec fn spec_refract(&self, normal: &Vec3, etai_over_etat: Scalar) -> Vec3 {
        let parallel = self.refract_parallel(*normal, etai_over_etat);
        let perp = normal.scaled(
            Scalar::from_int(1).minus(parallel.length_squared()).root().negated(),
        );
        parallel.plus(perp)
    }

    pub fn new(x: Scalar, y: Scalar, z: Scalar) -> (r: Vec3)
        ensures
            r == (Vec3 { x, y, z }),
    {
        Vec3 { x, y, z }
    }

    #[verifier::when_used_as_spec(spec_plus)]
    pub fn plus(self, other: Vec3) -> (r: Vec3)
        ensures
            r == self.spec_plus(other),
    {
        Vec3 { x: self.x.plus(other.x), y: self.y.plus(other.y), z: self.z.plus(other.z) }
    }

    #[verifier::when_used_as_spec(spec_minus)]
    pub fn minus(self, other: Vec3) -> (r: Vec3)
        ensures
            r == self.spec_minus(other),
    {
        Vec3 { x: self.x.minus(other.x), y: self.y.minus(other.y), z: self.z.minus(other.z) }
    }

    #[verifier::when_used_as_spec(spec_negated)]
    pub fn negated(self) -> (r: Vec3)
        ensures
            r == self.spec_negated(),
    {
        Vec3 { x: self.x.negated(), y: self.y.negated(), z: self.z.negated() }
    }

    /// Every component multiplied by `k`.
    #[verifier::when_used_as_spec(spec_scaled)]
    pub fn scaled(self, k: Scalar) -> (r: Vec3)
        ensures
            r == self.spec_scaled(k),
    {
        Vec3 { x: self.x.times(k), y: self.y.times(k), z: self.z.times(k) }
    }

    /// Every component divided by `k`.
    #[verifier::when_used_as_spec(spec_divided)]
    pub fn divided(self, k: Scalar) -> (r: Vec3)
        ensures
            r == self.spec_divided(k),
    {
        Vec3 { x: self.x.over(k), y: self.y.over(k), z: self.z.over(k) }
    }

    /// The dot product.
    #[verifier::when_used_as_spec(spec_dot)]
    pub fn dot(self, other: Vec3) -> (r: Scalar)
        ensures
            r == self.spec_dot(other),
    {
        self.x.times(other.x).plus(self.y.times(other.y)).plus(self.z.times(other.z))
    }

    /// The cross product.
    #[verifier::when_used_as_spec(spec_cross)]
    pub fn cross(self, other: Vec3) -> (r: Vec3)
        ensures
            r == self.spec_cross(other),
    {
        Vec3 {
            x: self.y.times(other.z).minus(self.z.times(other.y)),
            y: self.z.times(other.x).minus(self.x.times(other.z)),
            z: self.x.times(other.y).minus(self.y.times(other.x)),
        }
    }

    #[verifier::when_used_as_spec(spec_length_squared)]
    pub fn length_squared(self) -> (r: Scalar)
        ensures
            r == self.spec_length_squared(),
    {
        self.dot(self)
    }

    /// The length of the vector.
    #[verifier::when_used_as_spec(spec_length)]
    pub fn length(self) -> (r: Scalar)
        ensures
            r == self.spec_length(),
    {
        self.length_squared().root()
    }

    /// The vector divided by its length.
    #[verifier::when_used_as_spec(spec_unit_vector)]
    pub fn unit_vector(self) -> (r: Vec3)
        ensures
            r == self.spec_unit_vector(),
    {
        self.divided(self.length())
    }

    /// The position with the same components.
    #[verifier::when_used_as_spec(spec_to_point3)]
    pub fn to_point3(self) -> (r: Point3)
        ensures
            r == self.spec_to_point3(),
    {
        Point3 { x: self.x, y: self.y, z: self.z }
    }

    /// Converts to another kind of triple with the same components.
    pub fn conv<T: VecType>(self) -> (r: T)
        ensures
            r.parts() == self.parts(),
    {
        T::from_params(self.x, self.y, self.z)
    }

    #[verifier::when_used_as_spec(spec_reflect)]
    pub fn reflect(&self, normal: &Vec3) -> (r: Vec3)
        ensures
            r == self.spec_reflect(normal),
    {
        let v = *self;
        v.minus(normal.scaled(Scalar::from_int(2).times(v.dot(*normal))))
    }

    #[verifier::when_used_as_spec(spec_refract)]
    pub fn refract(&self, normal: &Vec3, etai_over_etat: Scalar) -> (r: Vec3)
        ensures
            r == self.spec_refract(normal, etai_over_etat),
    {
        let uv = *self;
        let cos_theta = uv.negated().dot(*normal);
        let r_out_parallel = normal.scaled(cos_theta).plus(uv).scaled(etai_over_etat);
        let r_out_perp = normal.scaled(
            Scalar::from_int(1).minus(r_out_parallel.length_squared()).root().negated(),
        );
        r_out_parallel.plus(r_out_perp)
    }
}

impl Point3 {
    /// The point reached from `self` by the displacement `by`.
    pub open spec fn spec_offset(self, by: Vec3) -> Point3 {
        Point3 { x: self.x.plus(by.x), y: self.y.plus(by.y), z: self.z.plus(by.z) }
    }

    /// The displacement that leads from `other` to `self`.
    pub open spec fn spec_minus(self, other: Point3) -> Vec3 {
        Vec3 { x: self.x.minus(other.x), y: self.y.minus(other.y), z: self.z.minus(other.z) }
    }

    pub open spec fn spec_to_vec3(self) -> Vec3 {
        Vec3 { x: self.x, y: self.y, z: self.z }
    }

    /// The coordinate along axis 0, 1 or 2.
    pub open spec fn spec_axis(self, i: int) -> Scalar {
        if i == 0 {
            self.x
        } else if i == 1 {
            self.y
        } else {
            self.z
        }
    }

    pub fn new(x: Scalar, y: Scalar, z: Scalar) -> (r: Point3)
        ensures
            r == (Point3 { x, y, z }),
    {
        Point3 { x, y, z }
    }

    #[verifier::when_used_as_spec(spec_offset)]
    pub fn offset(self, by: Vec3) -> (r: Point3)
        ensures
            r == self.spec_offset(by),
    {
        Point3 { x: self.x.plus(by.x), y: self.y.plus(by.y), z: self.z.plus(by.z) }
    }

    #[verifier::when_used_as_spec(spec_minus)]
    pub fn minus(self, other: Point3) -> (r: Vec3)
        ensures
            r == self.spec_minus(other),
    {
        Vec3 { x: self.x.minus(other.x), y: self.y.minus(other.y), z: self.z.minus(other.z) }
    }

    /// The displacement from the origin to this point.
    #[verifier::when_used_as_spec(spec_to_vec3)]
    pub fn to_vec3(self) -> (r: Vec3)
        ensures
            r == self.spec_to_vec3(),
    {
        Vec3 { x: self.x, y: self.y, z: self.z }
    }

    /// The coordinate along axis 0, 1 or 2.
    pub fn axis(self, i: usize) -> (r: Scalar)
        requires
            i < 3,
        ensures
            r == self.spec_axis(i as int),
    {
        if i == 0 {
            self.x
        } else if i == 1 {
            self.y
        } else {
            self.z
        }
    }

    /// Converts to another kind of triple with the same components.
    pub fn conv<T: VecType>(self) -> (r: T)
        ensures
            r.parts() == self.parts(),
    {
        T::from_params(self.x, self.y, self.z)
    }
}

impl Color {
    pub open spec fn spec_plus(self, other: Color) -> Color {
        Color {
            red: self.red.plus(other.red),
            green: self.green.plus(other.green),
            blue: self.blue.plus(other.blue),
        }
    }

    /// The channel-wise product.
    pub open spec fn spec_times(self, other: Color) -> Color {
        Color {
            red: self.red.times(other.red),
            green: self.green.times(other.green),
            blue: self.blue.times(other.blue),
        }
    }

    pub open spec fn spec_scaled(self, k: Scalar) -> Color {
        Color { red: self.red.times(k), green: self.green.times(k), blue: self.blue.times(k) }
    }

    pub open spec fn spec_divided(self, k: Scalar) -> Color {
        Color { red: self.red.over(k), green: self.green.over(k), blue: self.blue.over(k) }
    }

    pub open spec fn black() -> Color {
        Color { red: Scalar { raw: 0 }, green: Scalar { raw: 0 }, blue: Scalar { raw: 0 } }
    }

    pub fn new(red: Scalar, green: Scalar, blue: Scalar) -> (r: Color)
        ensures
            r == (Color { red, green, blue }),
    {
        Color { red, green, blue }
    }

    #[verifier::when_used_as_spec(spec_plus)]
    pub fn plus(self, other: Color) -> (r: Color)
        ensures
            r == self.spec_plus(other),
    {
        Color {
            red: self.red.plus(other.red),
            green: self.green.plus(other.green),
            blue: self.blue.plus(other.blue),
        }
    }

    #[verifier::when_used_as_spec(spec_times)]
    pub fn times(self, other: Color) -> (r: Color)
        ensures
            r == self.spec_times(other),
    {
        Color {
            red: self.red.times(other.red),
            green: self.green.times(other.green),
            blue: self.blue.times(other.blue),
        }
    }

    #[verifier::when_used_as_spec(spec_scaled)]
    pub fn scaled(self, k: Scalar) -> (r: Color)
        ensures
            r == self.spec_scaled(k),
    {
        Color { red: self.red.times(k), green: self.green.times(k), blue: self.blue.times(k) }
    }

    #[verifier::when_used_as_spec(spec_divided)]
    pub fn divided(self, k: Scalar) -> (r: Color)
        ensures
            r == self.spec_divided(k),
    {
        Color { red: self.red.over(k), green: self.green.over(k), blue: self.blue.over(k) }
    }

    /// Converts to another kind of triple with the same components.
    pub fn conv<T: VecType>(self) -> (r: T)
        ensures
            r.parts() == self.parts(),
    {
        T::from_params(self.red, self.green, self.blue)
    }
}

impl Default for Color {
    /// Black.
    fn default() -> (r: Color)
        ensures
            r == Color::black(),
    {
        Color { red: Scalar { raw: 0 }, green: Scalar { raw: 0 }, blue: Scalar { raw: 0 } }
    }
}

} // verus!
