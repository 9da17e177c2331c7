use rand::rngs::StdRng;
use rand::SeedableRng;
use ray_tracing::sampling::{
    draw_signed_unit, draw_unit, draw_within, rand_unit_vector, random_in_unit_disk,
    random_in_unit_sphere,
};
use ray_tracing::scalar::Scalar;

const ONE: i64 = 1_000_000;

#[test]
fn unit_draws_lie_in_the_unit_interval_and_vary() {
    let mut rng = StdRng::seed_from_u64(1);
    let mut low = 0;
    let mut high = 0;
    let mut first = None;
    let mut varied = false;
    for _ in 0..2_000 {
        let x = draw_unit(&mut rng).raw;
        assert!(0 <= x && x < ONE);
        if x < ONE / 2 {
            low += 1;
        } else {
            high += 1;
        }
        match first {
            None => first = Some(x),
            Some(f) => varied = varied || f != x,
        }
    }
    assert!(varied);
    assert!(low > 800 && high > 800);
}

#[test]
fn signed_draws_lie_between_minus_one_and_one() {
    let mut rng = StdRng::seed_from_u64(2);
    let mut negative = 0;
    for _ in 0..2_000 {
        let x = draw_signed_unit(&mut rng).raw;
        assert!(-ONE <= x && x < ONE);
        if x < 0 {
            negative += 1;
        }
    }
    assert!(negative > 800 && negative < 1_200);
}

#[test]
fn draws_within_bounds() {
    let mut rng = StdRng::seed_from_u64(3);
    let low = Scalar::new(100_000);
    let high = Scalar::new(300_000);
    let mut above = false;
    for _ in 0..500 {
        let x = draw_within(&mut rng, low, high).raw;
        assert!(100_000 <= x && x < 300_000);
        above = above || x > 100_000;
    }
    assert!(above);
    assert_eq!(draw_within(&mut rng, Scalar::new(5), Scalar::new(6)).raw, 5);
}

#[test]
fn an_empty_interval_gives_its_lower_end() {
    let mut rng = StdRng::seed_from_u64(4);
    assert_eq!(draw_within(&mut rng, Scalar::new(7), Scalar::new(7)).raw, 7);
    assert_eq!(draw_within(&mut rng, Scalar::new(7), Scalar::new(-7)).raw, 7);
}

#[test]
fn the_same_seed_gives_the_same_draws() {
    let mut a = StdRng::seed_from_u64(5);
    let mut b = StdRng::seed_from_u64(5);
    let mut c = StdRng::seed_from_u64(6);
    let mut differs = false;
    for _ in 0..50 {
        let x = draw_unit(&mut a);
        assert_eq!(x, draw_unit(&mut b));
        differs = differs || x != draw_unit(&mut c);
    }
    assert!(differs);
}

#[test]
fn points_of_the_unit_disk() {
    let mut rng = StdRng::seed_from_u64(7);
    let mut far = 0;
    for _ in 0..1_000 {
        let p = random_in_unit_disk(&mut rng);
        assert_eq!(p.z.raw, 0);
        assert!(p.length_squared().raw < ONE);
        if p.length_squared().raw > ONE / 4 {
            far += 1;
        }
    }
    // Three quarters of the disk lie beyond half the radius.
    assert!(far > 650 && far < 850);
}

#[test]
fn points_of_the_unit_sphere() {
    let mut rng = StdRng::seed_from_u64(8);
    let mut below = 0;
    for _ in 0..1_000 {
        let p = random_in_unit_sphere(&mut rng);
        assert!(p.length_squared().raw < ONE);
        if p.z.raw < 0 {
            below += 1;
        }
    }
    assert!(below > 400 && below < 600);
}

#[test]
fn random_directions_have_length_one() {
    let mut rng = StdRng::seed_from_u64(9);
    for _ in 0..1_000 {
        let d = rand_unit_vector(&mut rng);
        let x = d.x.raw as f64 / 1e6;
        let y = d.y.raw as f64 / 1e6;
        let z = d.z.raw as f64 / 1e6;
        let length = (x * x + y * y + z * z).sqrt();
        assert!((length - 1.0).abs() < 1e-3, "{}", length);
    }
}
