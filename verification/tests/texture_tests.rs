use ray_tracing::scalar::Scalar;
use ray_tracing::texture::{AnyTexture, Checker, ImageTexture, SolidColor, StarTexture, Texture};
use ray_tracing::vec3::{Color, Point3};

fn s(raw: i64) -> Scalar {
    Scalar::new(raw)
}

fn p(x: i64, y: i64, z: i64) -> Point3 {
    Point3::new(s(x), s(y), s(z))
}

fn c(r: i64, g: i64, b: i64) -> Color {
    Color::new(s(r), s(g), s(b))
}

fn four_pixels() -> ImageTexture {
    let pixels = vec![0, 0, 0, 255, 0, 0, 0, 255, 0, 0, 0, 128];
    ImageTexture::new(2, 2, pixels).unwrap()
}

#[test]
fn a_solid_colour_is_the_same_everywhere() {
    let t = SolidColor::new(c(100_000, 200_000, 300_000));
    assert_eq!(t.value(s(0), s(0), p(0, 0, 0)), c(100_000, 200_000, 300_000));
    assert_eq!(
        t.value(s(700_000), s(-5), p(1, -2, 3_000_000)),
        c(100_000, 200_000, 300_000)
    );
}

#[test]
fn the_checker_follows_the_sign_of_the_sines() {
    let odd = c(0, 0, 0);
    let even = c(1_000_000, 1_000_000, 1_000_000);
    let t = Checker::new(odd, even);
    let zero = s(0);
    // sin(1) > 0 three times.
    assert_eq!(t.value(zero, zero, p(100_000, 100_000, 100_000)), even);
    // sin(4) < 0 once.
    assert_eq!(t.value(zero, zero, p(400_000, 100_000, 100_000)), odd);
    // sin(4) < 0 twice.
    assert_eq!(t.value(zero, zero, p(400_000, 400_000, 100_000)), even);
    // sin(4) < 0 three times.
    assert_eq!(t.value(zero, zero, p(400_000, 400_000, 400_000)), odd);
    // sin(-1) < 0 once.
    assert_eq!(t.value(zero, zero, p(-100_000, 100_000, 100_000)), odd);
    // sin(7) > 0 again.
    assert_eq!(t.value(zero, zero, p(700_000, 100_000, 100_000)), even);
}

#[test]
fn the_checker_is_even_where_a_sine_is_zero() {
    let odd = c(0, 0, 0);
    let even = c(1_000_000, 1_000_000, 1_000_000);
    let t = Checker::new(odd, even);
    assert_eq!(t.value(s(0), s(0), p(0, 400_000, 100_000)), even);
    assert_eq!(t.value(s(0), s(0), p(0, 0, 0)), even);
}

#[test]
fn an_image_texture_needs_a_buffer_of_the_right_length() {
    assert!(ImageTexture::new(2, 2, vec![0; 12]).is_some());
    assert!(ImageTexture::new(2, 2, vec![0; 11]).is_none());
    assert!(ImageTexture::new(2, 2, vec![0; 13]).is_none());
    assert!(ImageTexture::new(0, 2, vec![]).is_none());
    assert!(ImageTexture::new(2, 0, vec![]).is_none());
    assert!(ImageTexture::new(1, 1, vec![1, 2, 3]).is_some());
}

#[test]
fn an_image_texture_looks_up_the_nearest_pixel() {
    let t = four_pixels();
    let o = p(0, 0, 0);
    // v = 1 is the top row, u = 0 the left column.
    assert_eq!(t.value(s(0), s(1_000_000), o), c(0, 0, 0));
    assert_eq!(t.value(s(999_999), s(1_000_000), o), c(996_093, 0, 0));
    assert_eq!(t.value(s(0), s(0), o), c(0, 996_093, 0));
    assert_eq!(t.value(s(1_000_000), s(0), o), c(0, 0, 500_000));
    assert_eq!(t.value(s(500_000), s(500_000), o), c(0, 0, 500_000));
    assert_eq!(t.value(s(499_999), s(500_001), o), c(0, 0, 0));
}

#[test]
fn an_image_texture_clamps_its_coordinates() {
    let t = four_pixels();
    let o = p(0, 0, 0);
    assert_eq!(t.value(s(-3_000_000), s(7_000_000), o), c(0, 0, 0));
    assert_eq!(t.value(s(3_000_000), s(-7_000_000), o), c(0, 0, 500_000));
    assert_eq!(t.value(s(i64::MIN), s(i64::MAX), o), c(0, 0, 0));
    assert_eq!(t.value(s(i64::MAX), s(i64::MIN), o), c(0, 0, 500_000));
}

#[test]
fn stars_shine_where_the_hash_is_high() {
    let t = StarTexture::new(7, 100);
    let o = p(0, 0, 0);
    let white = c(1_000_000, 1_000_000, 1_000_000);
    let black = c(0, 0, 0);
    assert_eq!(t.value(s(0), s(190_000), o), white);
    assert_eq!(t.value(s(0), s(200_000), o), white);
    assert_eq!(t.value(s(500_000), s(500_000), o), black);
    assert_eq!(t.value(s(0), s(0), o), black);
}

#[test]
fn the_star_field_ignores_seed_and_count() {
    let a = StarTexture::new(1, 1);
    let b = StarTexture::new(99, 5_000);
    let o = p(0, 0, 0);
    for i in 0..50 {
        let u = s(i * 20_000);
        let v = s(1_000_000 - i * 20_000);
        assert_eq!(a.value(u, v, o), b.value(u, v, o));
    }
}

#[test]
fn any_texture_does_what_its_variant_does() {
    let o = p(400_000, 100_000, 100_000);
    let solid = AnyTexture::Solid(SolidColor::new(c(1, 2, 3)));
    assert_eq!(solid.value(s(0), s(0), o), c(1, 2, 3));
    let checker = AnyTexture::Checker(Checker::new(c(9, 9, 9), c(1, 1, 1)));
    assert_eq!(checker.value(s(0), s(0), o), c(9, 9, 9));
    let image = AnyTexture::Image(four_pixels());
    assert_eq!(image.value(s(0), s(0), o), c(0, 996_093, 0));
    let star = AnyTexture::Star(StarTexture::new(0, 0));
    assert_eq!(
        star.value(s(0), s(190_000), o),
        c(1_000_000, 1_000_000, 1_000_000)
    );
}
