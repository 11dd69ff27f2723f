use raytracer::fixed::{Fixed, MAX_RAW, ONE_RAW};

fn fx(x: f64) -> Fixed {
    Fixed::from_raw((x * 4294967296.0).round() as i64)
}

#[test]
fn one_times_one_is_one() {
    let one = Fixed::one();
    assert_eq!(one.mul(one).raw(), ONE_RAW);
}

#[test]
fn product_is_exact_where_it_is_representable() {
    assert_eq!(fx(1.5).mul(fx(2.5)).raw(), 16106127360);
    assert_eq!(fx(-1.5).mul(fx(2.5)).raw(), -16106127360);
}

#[test]
fn product_rounds_toward_zero() {
    assert_eq!(Fixed::from_raw(1).mul(Fixed::from_raw(1)).raw(), 0);
    assert_eq!(Fixed::from_raw(-1).mul(Fixed::from_raw(1)).raw(), 0);
    assert_eq!(Fixed::from_raw(3).mul(fx(0.5)).raw(), 1);
    assert_eq!(Fixed::from_raw(-3).mul(fx(0.5)).raw(), -1);
}

#[test]
fn arithmetic_saturates_at_both_ends() {
    let max = Fixed::max_value();
    assert_eq!(max.add(Fixed::one()).raw(), MAX_RAW);
    assert_eq!(max.neg().sub(Fixed::one()).raw(), -MAX_RAW);
    assert_eq!(max.mul(Fixed::from_int(2)).raw(), MAX_RAW);
    assert_eq!(max.mul(Fixed::from_int(-2)).raw(), -MAX_RAW);
    assert_eq!(max.div(fx(0.5)).raw(), MAX_RAW);
    assert_eq!(Fixed::from_int(i32::MIN).raw(), -MAX_RAW);
}

#[test]
fn lowest_bit_pattern_stands_for_lower_bound() {
    assert_eq!(Fixed::from_raw(i64::MIN).raw(), -MAX_RAW);
    assert_eq!(Fixed::from_raw(i64::MIN).neg().raw(), MAX_RAW);
}

#[test]
fn negation_is_exact() {
    assert_eq!(fx(2.25).neg().raw(), -fx(2.25).raw());
    assert_eq!(Fixed::max_value().neg().neg().raw(), MAX_RAW);
    assert_eq!(Fixed::zero().neg().raw(), 0);
}

#[test]
fn quotient_rounds_toward_zero() {
    assert_eq!(Fixed::one().div(Fixed::from_int(3)).raw(), 1431655765);
    assert_eq!(Fixed::one().neg().div(Fixed::from_int(3)).raw(), -1431655765);
    assert_eq!(Fixed::one().div(Fixed::from_int(-3)).raw(), -1431655765);
    assert_eq!(fx(7.0).div(fx(2.0)).raw(), fx(3.5).raw());
}

#[test]
fn from_ratio_gives_decimal_fractions() {
    assert_eq!(Fixed::from_ratio(1, 5).raw(), 858993459);
    assert_eq!(Fixed::from_ratio(9, 10).raw(), 3865470566);
    assert_eq!(Fixed::from_ratio(-1, 5).raw(), -858993459);
    assert_eq!(Fixed::from_ratio(3, 2).raw(), 6442450944);
}

#[test]
fn from_fraction_bits_lies_below_one() {
    assert_eq!(Fixed::from_fraction_bits(0).raw(), 0);
    assert_eq!(Fixed::from_fraction_bits(u32::MAX).raw(), ONE_RAW - 1);
    assert_eq!(Fixed::from_fraction_bits(0x8000_0000).raw(), ONE_RAW / 2);
}

#[test]
fn square_root_rounds_down() {
    assert_eq!(Fixed::from_int(4).sqrt().raw(), 2 * ONE_RAW);
    assert_eq!(Fixed::from_int(2).sqrt().raw(), 6074000999);
    assert_eq!(Fixed::zero().sqrt().raw(), 0);
    assert_eq!(Fixed::from_raw(1).sqrt().raw(), 65536);
    assert_eq!(Fixed::max_value().sqrt().raw(), 199032864766430);
}

#[test]
fn fused_operations_round_once() {
    let a = Fixed::from_raw(3);
    let half = fx(0.5);
    assert_eq!(a.mul_sub(half, Fixed::from_raw(1), half).raw(), 1);
    assert_eq!(a.mul(half).sub(Fixed::from_raw(1).mul(half)).raw(), 1);
    assert_eq!(a.dot3(half, a, half, a, half).raw(), 4);
    assert_eq!(a.mul(half).add(a.mul(half)).add(a.mul(half)).raw(), 3);
}

#[test]
fn dot3_saturates_when_the_sum_leaves_128_bits() {
    let max = Fixed::max_value();
    assert_eq!(max.dot3(max, max, max, max, max).raw(), MAX_RAW);
    assert_eq!(max.dot3(max.neg(), max, max.neg(), max, max.neg()).raw(), -MAX_RAW);
    assert_eq!(max.dot3(max, max, max.neg(), Fixed::one(), Fixed::one()).raw(), ONE_RAW);
}

#[test]
fn norm3_is_the_euclidean_norm() {
    assert_eq!(
        Fixed::norm3(Fixed::from_int(3), Fixed::from_int(4), Fixed::zero()).raw(),
        5 * ONE_RAW
    );
    assert_eq!(
        Fixed::norm3(Fixed::from_int(-3), Fixed::from_int(4), Fixed::from_int(12)).raw(),
        13 * ONE_RAW
    );
    assert_eq!(Fixed::norm3(Fixed::from_raw(1), Fixed::from_raw(1), Fixed::zero()).raw(), 1);
    let max = Fixed::max_value();
    assert_eq!(Fixed::norm3(max, max, max).raw(), MAX_RAW);
}

#[test]
fn comparisons_follow_the_raw_values() {
    assert!(fx(1.0).lt(fx(1.5)));
    assert!(!fx(1.5).lt(fx(1.5)));
    assert!(fx(1.5).le(fx(1.5)));
    assert!(fx(-2.0).is_negative());
    assert!(!Fixed::zero().is_negative());
    assert!(Fixed::zero().is_zero());
    assert!(fx(0.25).same(Fixed::from_ratio(1, 4)));
    assert_eq!(fx(-2.5).abs().raw(), fx(2.5).raw());
    assert_eq!(fx(1.0).min(fx(2.0)).raw(), ONE_RAW);
    assert_eq!(fx(1.0).max(fx(2.0)).raw(), 2 * ONE_RAW);
}

#[test]
fn times_multiplies_without_rounding() {
    assert_eq!(Fixed::from_raw(3).times(5).raw(), 15);
    assert_eq!(Fixed::from_raw(-3).times(1 << 31).raw(), -3 * (1i64 << 31));
    assert_eq!(fx(1.5).times(-2).raw(), fx(-3.0).raw());
    assert_eq!(Fixed::max_value().times(2).raw(), MAX_RAW);
    assert_eq!(Fixed::max_value().times(-2).raw(), -MAX_RAW);
    assert_eq!(Fixed::from_raw(7).times(0).raw(), 0);
}

#[test]
fn growth_brings_a_magnitude_to_ordinary_size() {
    assert_eq!(Fixed::from_raw(1).growth(), 1 << 31);
    assert_eq!(Fixed::from_raw(-1).growth(), 1 << 31);
    assert_eq!(Fixed::from_raw(80000).growth(), 32768);
    assert_eq!(Fixed::from_raw((1 << 31) - 1).growth(), 2);
    assert_eq!(Fixed::from_raw(1 << 31).growth(), 1);
    assert_eq!(Fixed::from_raw(0).growth(), 1);
    assert_eq!(Fixed::max_value().growth(), 1);
    for raw in [1i64, 2, 3, 1000, 80000, 123456789, (1 << 31) - 1] {
        let grown = raw * Fixed::from_raw(raw).growth();
        assert!((1 << 31) <= grown && grown < (1i64 << 32));
    }
}
