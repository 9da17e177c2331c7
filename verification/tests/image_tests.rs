use ray_tracing::image::Image;
use ray_tracing::scalar::Scalar;
use ray_tracing::vec3::Color;

fn s(raw: i64) -> Scalar {
    Scalar::new(raw)
}

#[test]
fn bytes_of_a_colour_are_gamma_encoded() {
    let c = Color::new(s(1_000_000), s(250_000), s(0));
    assert_eq!(c.get_bytes(), vec![255, 127, 0]);
}

#[test]
fn bytes_of_a_colour_are_clamped() {
    let c = Color::new(s(9_000_000), s(-1_000_000), s(i64::MAX));
    assert_eq!(c.get_bytes(), vec![255, 0, 255]);
}

#[test]
fn bytes_of_a_grey() {
    let c = Color::new(s(500_000), s(500_000), s(500_000));
    // The root of 0.5 is 0.707106, and 0.707106 * 255.999 = 181.01...
    assert_eq!(c.get_bytes(), vec![181, 181, 181]);
}

#[test]
fn a_new_image_is_black() {
    let image = Image::new(3, 2);
    assert_eq!(image.width, 3);
    assert_eq!(image.height, 2);
    assert_eq!(image.data.len(), 2);
    for row in &image.data {
        assert_eq!(row.len(), 3);
        for pixel in row {
            assert_eq!(*pixel, Color::default());
        }
    }
}

#[test]
fn an_empty_image_has_no_rows() {
    let image = Image::new(5, 0);
    assert_eq!(image.data.len(), 0);
    let narrow = Image::new(0, 4);
    assert_eq!(narrow.data.len(), 4);
    assert_eq!(narrow.data[0].len(), 0);
    assert_eq!(narrow.rgb_bytes().len(), 0);
}

#[test]
fn the_test_pattern() {
    let image = Image::new_test(3, 5);
    assert_eq!(image.data.len(), 5);
    assert_eq!(image.data[0].len(), 3);
    assert_eq!(image.data[0][0], Color::new(s(0), s(1_000_000), s(250_000)));
    assert_eq!(image.data[0][1], Color::new(s(500_000), s(1_000_000), s(250_000)));
    assert_eq!(image.data[0][2], Color::new(s(1_000_000), s(1_000_000), s(250_000)));
    assert_eq!(image.data[1][2], Color::new(s(1_000_000), s(750_000), s(250_000)));
    assert_eq!(image.data[4][0], Color::new(s(0), s(0), s(250_000)));
}

#[test]
fn the_test_pattern_of_a_single_pixel() {
    let image = Image::new_test(1, 1);
    assert_eq!(image.data[0][0], Color::new(s(0), s(0), s(250_000)));
}

#[test]
fn bytes_of_an_image_run_row_by_row() {
    let image = Image::new_test(2, 2);
    assert_eq!(
        image.rgb_bytes(),
        vec![0, 255, 127, 255, 255, 127, 0, 0, 127, 255, 0, 127]
    );
}
