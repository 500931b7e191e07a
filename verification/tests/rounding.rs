use build_shaper_font::fixed::{clamp_i16, round_fixed, round_scaled};
use build_shaper_font::resolver::{default_from_parts, delta_from_value};

const ONE: i64 = 0x1_0000;

#[test]
fn round_half_away_positive() {
    // 2.5 in 16.16 fixed point rounds up to 3.
    assert_eq!(round_fixed(5 * ONE / 2), 3);
}

#[test]
fn round_half_away_negative() {
    // -2.5 rounds away from zero, to -3.
    assert_eq!(round_fixed(-5 * ONE / 2), -3);
}

#[test]
fn round_nearest_off_tie() {
    assert_eq!(round_fixed(2 * ONE + 1), 2);
    assert_eq!(round_fixed(3 * ONE - 1), 3);
    assert_eq!(round_fixed(-2 * ONE - 1), -2);
    assert_eq!(round_fixed(0), 0);
}

#[test]
fn round_scaled_ties() {
    // 2.5 at 32 fractional bits.
    assert_eq!(round_scaled(5i128 << 31), 3);
    assert_eq!(round_scaled(-(5i128 << 31)), -3);
    assert_eq!(round_scaled(2i128 << 32), 2);
}

#[test]
fn clamp_saturates() {
    assert_eq!(clamp_i16(40000), 32767);
    assert_eq!(clamp_i16(-40000), -32768);
    assert_eq!(clamp_i16(5), 5);
    assert_eq!(clamp_i16(-32768), -32768);
}

#[test]
fn default_tie_rounds_away() {
    // One region of value 5 weighted 0.5: the unrounded default is
    // exactly 2.5 and must come out as 3; mirrored, as -3.
    assert_eq!(default_from_parts(&vec![5 * ONE], &vec![ONE / 2]), 3);
    assert_eq!(default_from_parts(&vec![-5 * ONE], &vec![ONE / 2]), -3);
}

#[test]
fn default_single_master() {
    assert_eq!(default_from_parts(&vec![42 * ONE], &vec![ONE]), 42);
}

#[test]
fn default_sums_regions() {
    // 10 * 1.0 + 20 * 0.25 = 15.
    assert_eq!(default_from_parts(&vec![10 * ONE, 20 * ONE], &vec![ONE, ONE / 4]), 15);
}

#[test]
fn delta_rounds_half_away() {
    assert_eq!(delta_from_value(5 * ONE / 2), 3);
    assert_eq!(delta_from_value(-5 * ONE / 2), -3);
    assert_eq!(delta_from_value(20 * ONE), 20);
}
