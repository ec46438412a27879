use flycam::fixed::{isqrt, minus, narrow, plus, plus_product, times, wide_product, SCALE};

#[test]
fn scale_is_a_million() {
    assert_eq!(SCALE, 1_000_000);
}

#[test]
fn times_multiplies_fixed_point_numbers() {
    assert_eq!(times(2_500_000, 1_000_000), 2_500_000);
    assert_eq!(times(2_500_000, 4_000_000), 10_000_000);
    assert_eq!(times(100_000, 10_000_000), 1_000_000);
    assert_eq!(times(7, SCALE), 7);
    assert_eq!(times(1_234_567, -7_654_321), -9_449_772);
    assert_eq!(times(0, i64::MAX), 0);
}

#[test]
fn times_rounds_toward_zero() {
    assert_eq!(times(3, 500_000), 1);
    assert_eq!(times(-3, 500_000), -1);
    assert_eq!(times(3, -500_000), -1);
    assert_eq!(times(-3, -500_000), 1);
    assert_eq!(times(1, 1), 0);
    assert_eq!(times(-1, 999_999), 0);
    assert_eq!(times(-1_500_000, 1_500_000), -2_250_000);
}

#[test]
fn times_saturates() {
    assert_eq!(times(i64::MAX, i64::MAX), i64::MAX);
    assert_eq!(times(i64::MIN, i64::MAX), i64::MIN);
    assert_eq!(times(i64::MIN, i64::MIN), i64::MAX);
    assert_eq!(times(i64::MAX, 2_000_000), i64::MAX);
    assert_eq!(times(i64::MAX, -2_000_000), i64::MIN);
    assert_eq!(times(i64::MAX, SCALE), i64::MAX);
    assert_eq!(times(i64::MIN, SCALE), i64::MIN);
}

#[test]
fn wide_product_keeps_what_times_cuts_off() {
    assert_eq!(wide_product(i64::MAX, 2_000_000), 2 * (i64::MAX as i128));
    assert_eq!(wide_product(i64::MIN, i64::MIN), (1i128 << 126) / 1_000_000);
    assert_eq!(wide_product(-7, 500_000), -3);
}

#[test]
fn plus_and_minus_saturate() {
    assert_eq!(plus(1, 2), 3);
    assert_eq!(plus(i64::MAX, 1), i64::MAX);
    assert_eq!(plus(i64::MIN, -1), i64::MIN);
    assert_eq!(plus(i64::MAX, i64::MIN), -1);
    assert_eq!(minus(5, 7), -2);
    assert_eq!(minus(i64::MIN, 1), i64::MIN);
    assert_eq!(minus(i64::MAX, -1), i64::MAX);
    assert_eq!(minus(0, i64::MIN), i64::MAX);
}

#[test]
fn plus_product_saturates_once_at_the_end() {
    assert_eq!(plus_product(10, 3, 500_000), 11);
    assert_eq!(plus_product(-5, i64::MAX, 1_000_010), i64::MAX);
    // The product alone leaves the range; the sum is back inside it.
    assert_eq!(
        plus_product(-10_000_000_000_000, i64::MAX, 1_000_001),
        i64::MAX - 776_627_963_146
    );
    assert_eq!(plus_product(i64::MIN, i64::MAX, 2_000_000), i64::MAX - 1);
    assert_eq!(plus_product(0, -9_800_000, 100_000), -980_000);
}

#[test]
fn narrow_sticks_at_the_ends() {
    assert_eq!(narrow(0), 0);
    assert_eq!(narrow(-42), -42);
    assert_eq!(narrow(i64::MAX as i128), i64::MAX);
    assert_eq!(narrow(i64::MAX as i128 + 1), i64::MAX);
    assert_eq!(narrow(i64::MIN as i128 - 1), i64::MIN);
    assert_eq!(narrow(i128::MAX), i64::MAX);
    assert_eq!(narrow(i128::MIN), i64::MIN);
}

#[test]
fn isqrt_of_small_numbers() {
    let expected: [u64; 17] = [0, 1, 1, 1, 2, 2, 2, 2, 2, 3, 3, 3, 3, 3, 3, 3, 4];
    let mut n: u128 = 0;
    while n < 17 {
        assert_eq!(isqrt(n), expected[n as usize]);
        n += 1;
    }
}

#[test]
fn isqrt_of_large_numbers() {
    assert_eq!(isqrt(1_000_000_000_000), 1_000_000);
    assert_eq!(isqrt(999_999_999_999), 999_999);
    assert_eq!(isqrt(2_000_000_000_000), 1_414_213);
    assert_eq!(isqrt(u128::MAX), u64::MAX);
    assert_eq!(isqrt(3 * (1u128 << 126)), 15_975_348_984_942_515_101);
    assert_eq!(isqrt((u64::MAX as u128) * (u64::MAX as u128)), u64::MAX);
    assert_eq!(isqrt((u64::MAX as u128) * (u64::MAX as u128) - 1), u64::MAX - 1);
}

#[test]
fn isqrt_brackets_its_argument() {
    let mut n: u128 = 1;
    let mut i = 0;
    while i < 120 {
        let r = isqrt(n) as u128;
        assert!(r * r <= n);
        assert!(r == u64::MAX as u128 || (r + 1) * (r + 1) > n);
        n = n * 2 + (i % 3);
        i += 1;
    }
}
