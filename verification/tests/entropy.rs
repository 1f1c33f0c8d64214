use neuroevolution::entropy::{centre, draw_within};
use rand::rngs::StdRng;
use rand::SeedableRng;

#[test]
fn centring_moves_a_draw_down_by_the_bound() {
    assert_eq!(centre(0, 3), -3);
    assert_eq!(centre(3, 3), 0);
    assert_eq!(centre(5, 3), 2);
    assert_eq!(centre(6, 3), 3);
    assert_eq!(centre(0, 0), 0);
    assert_eq!(centre(0, i32::MAX), -i32::MAX);
    assert_eq!(centre(2 * (i32::MAX as u128), i32::MAX), i32::MAX);
}

#[test]
fn centring_saturates() {
    assert_eq!(centre(u128::MAX, 0), i32::MAX);
    assert_eq!(centre(0x1_0000_0000, i32::MAX), i32::MAX);
    assert_eq!(centre(0x1_0000_0001, i32::MAX), i32::MAX);
    assert_eq!(centre(0, i32::MIN), i32::MAX);
    assert_eq!(centre(i32::MAX as u128 + 1, 0), i32::MAX);
    assert_eq!(centre(i32::MAX as u128, 0), i32::MAX);
    assert_eq!(centre(i32::MAX as u128 - 1, 0), i32::MAX - 1);
}

#[test]
fn draws_stay_within_the_bound_and_reach_both_ends() {
    let mut rng = StdRng::seed_from_u64(15);
    let mut seen = [0u32; 7];
    for _ in 0..7000 {
        let value = draw_within(&mut rng, 3);
        assert!((-3..=3).contains(&value));
        seen[(value + 3) as usize] += 1;
    }
    for count in seen {
        assert!(count > 800 && count < 1200, "count {}", count);
    }
}

#[test]
fn a_draw_within_zero_is_zero() {
    let mut rng = StdRng::seed_from_u64(16);
    for _ in 0..100 {
        assert_eq!(draw_within(&mut rng, 0), 0);
    }
}
