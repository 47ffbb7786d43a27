use rubble::vector::{
    clamp_i32, floor_div, isqrt, scaled_component, unit_component, Vector, SCALE, UNIT,
};

#[test]
fn isqrt_of_small_numbers() {
    assert_eq!(isqrt(0), 0);
    assert_eq!(isqrt(1), 1);
    assert_eq!(isqrt(2), 1);
    assert_eq!(isqrt(3), 1);
    assert_eq!(isqrt(4), 2);
    assert_eq!(isqrt(15), 3);
    assert_eq!(isqrt(16), 4);
    assert_eq!(isqrt(17), 4);
}

#[test]
fn isqrt_rounds_down() {
    assert_eq!(isqrt(600_000_000), 24_494);
    assert_eq!(isqrt(999_999), 999);
    assert_eq!(isqrt(1_000_000), 1000);
}

#[test]
fn isqrt_of_the_largest_number() {
    assert_eq!(isqrt(u64::MAX), u32::MAX);
    assert_eq!(isqrt((u32::MAX as u64) * (u32::MAX as u64)), u32::MAX);
    assert_eq!(isqrt((u32::MAX as u64) * (u32::MAX as u64) - 1), u32::MAX - 1);
}

#[test]
fn isqrt_squares_bracket_the_number() {
    let samples: [u64; 6] = [5, 99, 12_345, 1 << 40, (1 << 62) + 12_345, u64::MAX - 7];
    for n in samples {
        let r = isqrt(n) as u128;
        assert!(r * r <= n as u128);
        assert!((r + 1) * (r + 1) > n as u128);
    }
}

#[test]
fn length_of_three_four_five() {
    let v = Vector::new(3 * SCALE as i32, -4 * SCALE as i32);
    assert_eq!(v.length_squared(), 25_000_000);
    assert_eq!(v.length(), 5000);
}

#[test]
fn length_of_extreme_vector_does_not_overflow() {
    let v = Vector::new(i32::MIN, i32::MIN);
    assert_eq!(v.length_squared(), 1u64 << 63);
    assert_eq!(v.length(), 3_037_000_499);
}

#[test]
fn zero_vector() {
    assert_eq!(Vector::zero(), Vector { x: 0, y: 0 });
    assert_eq!(Vector::zero().length(), 0);
}

#[test]
fn clamp_saturates_both_ways() {
    assert_eq!(clamp_i32(0), 0);
    assert_eq!(clamp_i32(i32::MAX as i128), i32::MAX);
    assert_eq!(clamp_i32(i32::MAX as i128 + 1), i32::MAX);
    assert_eq!(clamp_i32(i32::MIN as i128 - 1), i32::MIN);
    assert_eq!(clamp_i32(-17), -17);
}

#[test]
fn floor_div_rounds_towards_minus_infinity() {
    assert_eq!(floor_div(7, 2), 3);
    assert_eq!(floor_div(-7, 2), -4);
    assert_eq!(floor_div(-8, 2), -4);
    assert_eq!(floor_div(-1, 8000), -1);
    assert_eq!(floor_div(0, 8000), 0);
    assert_eq!(floor_div(7999, 8000), 0);
    assert_eq!(floor_div(-8000, 8000), -1);
    assert_eq!(floor_div(-8001, 8000), -2);
    assert_eq!(floor_div(i128::MIN, 1), i128::MIN);
}

#[test]
fn plus_minus_times_saturate() {
    let a = Vector::new(i32::MAX, i32::MIN);
    let b = Vector::new(1, -1);
    assert_eq!(a.plus(b), Vector::new(i32::MAX, i32::MIN));
    assert_eq!(b.minus(a), Vector::new(-2_147_483_646, i32::MAX));
    assert_eq!(Vector::new(5, -7).plus(Vector::new(1, 2)), Vector::new(6, -5));
    assert_eq!(Vector::new(5, -7).minus(Vector::new(1, 2)), Vector::new(4, -9));
    assert_eq!(Vector::new(5, -7).times(2), Vector::new(10, -14));
    assert_eq!(Vector::new(i32::MAX, i32::MIN).times(2), Vector::new(i32::MAX, i32::MIN));
}

#[test]
fn directions_have_unit_length() {
    assert_eq!(UNIT, 1_000_000);
    assert_eq!(Vector::new(0, 0).normalize_or_zero(), Vector::new(0, 0));
    assert_eq!(Vector::new(5, 0).normalize_or_zero(), Vector::new(1_000_000, 0));
    assert_eq!(Vector::new(0, -1).normalize_or_zero(), Vector::new(0, -1_000_000));
    assert_eq!(Vector::new(3000, -4000).normalize_or_zero(), Vector::new(600_000, -800_000));
    assert_eq!(Vector::new(-1000, 1000).normalize_or_zero(), Vector::new(-707_106, 707_106));
    assert_eq!(Vector::new(1, 1).normalize_or_zero(), Vector::new(707_106, 707_106));
    assert_eq!(Vector::new(2, -2).normalize_or_zero(), Vector::new(707_106, -707_106));
    assert_eq!(Vector::new(i32::MAX, 1).normalize_or_zero(), Vector::new(999_999, 0));
    assert_eq!(
        Vector::new(i32::MIN, i32::MIN).normalize_or_zero(),
        Vector::new(-707_106, -707_106)
    );
}

#[test]
fn components_of_directions_and_magnitudes() {
    assert_eq!(unit_component(3, 25), 600_000);
    assert_eq!(unit_component(-4, 25), -800_000);
    assert_eq!(unit_component(0, 7), 0);
    assert_eq!(unit_component(1, 2), 707_106);
    assert_eq!(scaled_component(600_000, 500), 300);
    assert_eq!(scaled_component(-600_000, 500), -300);
    assert_eq!(scaled_component(707_106, 10), 7);
    assert_eq!(scaled_component(-707_106, 10), -7);
    assert_eq!(scaled_component(0, u64::MAX), 0);
    assert_eq!(scaled_component(1_000_000, u64::MAX), u64::MAX as i128);
}
