use ray_tracing::scalar::Scalar;
use ray_tracing::vec3::{Color, Point3, Vec3, VecType};

fn s(raw: i64) -> Scalar {
    Scalar::new(raw)
}

fn v(x: i64, y: i64, z: i64) -> Vec3 {
    Vec3::new(s(x), s(y), s(z))
}

#[test]
fn dot_product_of_whole_vectors() {
    let a = v(1_000_000, 2_000_000, 3_000_000);
    let b = v(4_000_000, -5_000_000, 6_000_000);
    assert_eq!(a.dot(b).raw, 12_000_000);
    assert_eq!(a.length_squared().raw, 14_000_000);
}

#[test]
fn cross_product_of_the_axes() {
    let x = v(1_000_000, 0, 0);
    let y = v(0, 1_000_000, 0);
    let z = v(0, 0, 1_000_000);
    assert_eq!(x.cross(y), z);
    assert_eq!(y.cross(z), x);
    assert_eq!(z.cross(x), y);
    assert_eq!(y.cross(x), z.negated());
}

#[test]
fn length_of_a_pythagorean_vector() {
    let a = v(3_000_000, 4_000_000, 12_000_000);
    assert_eq!(a.length().raw, 13_000_000);
    assert_eq!(a.unit_vector(), v(230_769, 307_692, 923_076));
}

#[test]
fn unit_vector_of_zero_is_zero() {
    assert_eq!(v(0, 0, 0).unit_vector(), v(0, 0, 0));
}

#[test]
fn sums_scalings_and_divisions() {
    let a = v(1_000_000, -2_000_000, 500_000);
    let b = v(250_000, 250_000, 250_000);
    assert_eq!(a.plus(b), v(1_250_000, -1_750_000, 750_000));
    assert_eq!(a.minus(b), v(750_000, -2_250_000, 250_000));
    assert_eq!(a.scaled(s(2_000_000)), v(2_000_000, -4_000_000, 1_000_000));
    assert_eq!(a.divided(s(2_000_000)), v(500_000, -1_000_000, 250_000));
}

#[test]
fn reflection_about_an_axis() {
    let a = v(1_000_000, -1_000_000, 0);
    let n = v(0, 1_000_000, 0);
    assert_eq!(a.reflect(&n), v(1_000_000, 1_000_000, 0));
}

#[test]
fn reflecting_twice_gives_the_vector_back() {
    let n = v(600_000, 800_000, 0);
    let a = v(1_000_000, 0, 0);
    let once = a.reflect(&n);
    assert_eq!(once, v(280_000, -960_000, 0));
    assert_eq!(once.reflect(&n), a);
    let b = v(-2_500_000, 7_000_000, 3_000_000);
    assert_eq!(b.reflect(&n).reflect(&n), b);
    let up = v(0, 0, 1_000_000);
    assert_eq!(b.reflect(&up).reflect(&up), b);
}

#[test]
fn a_rounded_reflection_is_not_undone() {
    let n = v(600_000, 800_000, 0);
    let a = v(1, 0, 0);
    assert_eq!(a.reflect(&n), v(1, 0, 0));
    let b = v(3, 0, 0);
    assert_eq!(b.reflect(&n), v(2, -1, 0));
    assert_eq!(b.reflect(&n).reflect(&n), v(2, -1, 0));
    assert_ne!(b.reflect(&n).reflect(&n), b);
}

#[test]
fn refraction_straight_through() {
    let down = v(0, -1_000_000, 0);
    let n = v(0, 1_000_000, 0);
    assert_eq!(down.refract(&n, s(1_000_000)), down);
    assert_eq!(down.refract(&n, s(666_666)), down);
}

#[test]
fn refraction_bends_towards_the_normal() {
    let a = v(600_000, -800_000, 0);
    let n = v(0, 1_000_000, 0);
    let out = a.refract(&n, s(500_000));
    assert_eq!(out, v(300_000, -953_939, 0));
}

#[test]
fn points_and_displacements() {
    let p = Point3::new(s(1_000_000), s(2_000_000), s(3_000_000));
    let q = Point3::new(s(500_000), s(500_000), s(500_000));
    assert_eq!(p.minus(q), v(500_000, 1_500_000, 2_500_000));
    assert_eq!(q.offset(p.minus(q)), p);
    assert_eq!(p.to_vec3().to_point3(), p);
    assert_eq!(p.axis(0).raw, 1_000_000);
    assert_eq!(p.axis(1).raw, 2_000_000);
    assert_eq!(p.axis(2).raw, 3_000_000);
}

#[test]
fn colours_add_and_filter() {
    let a = Color::new(s(500_000), s(250_000), s(1_000_000));
    let b = Color::new(s(500_000), s(500_000), s(500_000));
    assert_eq!(a.plus(b), Color::new(s(1_000_000), s(750_000), s(1_500_000)));
    assert_eq!(a.times(b), Color::new(s(250_000), s(125_000), s(500_000)));
    assert_eq!(a.scaled(s(2_000_000)), Color::new(s(1_000_000), s(500_000), s(2_000_000)));
    assert_eq!(a.divided(s(4_000_000)), Color::new(s(125_000), s(62_500), s(250_000)));
    assert_eq!(Color::default(), Color::new(s(0), s(0), s(0)));
}

#[test]
fn conversion_keeps_the_components() {
    let a = v(1, 2, 3);
    let p: Point3 = a.conv();
    assert_eq!(p, Point3::new(s(1), s(2), s(3)));
    let c: Color = p.conv();
    assert_eq!(c, Color::new(s(1), s(2), s(3)));
    let back: Vec3 = c.conv();
    assert_eq!(back, a);
    assert_eq!(Vec3::from_params(s(4), s(5), s(6)), v(4, 5, 6));
}
