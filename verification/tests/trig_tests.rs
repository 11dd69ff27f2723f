use raytracer::fixed::{Fixed, ONE_RAW};
use raytracer::rtweekend::{clamp, degrees_to_radians, PI_RAW};
use raytracer::trig::{checked_tan, cos, sin, tan};

fn fx(x: f64) -> Fixed {
    Fixed::from_raw((x * 4294967296.0).round() as i64)
}

fn as_f64(a: Fixed) -> f64 {
    a.raw() as f64 / 4294967296.0
}

#[test]
fn degrees_become_radians() {
    assert_eq!(degrees_to_radians(Fixed::from_int(180)).raw(), PI_RAW);
    assert_eq!(degrees_to_radians(Fixed::from_int(90)).raw(), 6746518852);
    assert_eq!(degrees_to_radians(Fixed::zero()).raw(), 0);
    assert_eq!(degrees_to_radians(Fixed::from_int(-180)).raw(), -PI_RAW);
}

#[test]
fn clamp_moves_into_the_interval() {
    assert_eq!(clamp(fx(0.5), fx(0.0), fx(0.999)), fx(0.5));
    assert_eq!(clamp(fx(-0.5), fx(0.0), fx(0.999)), fx(0.0));
    assert_eq!(clamp(fx(1.5), fx(0.0), fx(0.999)), fx(0.999));
    assert_eq!(clamp(fx(0.999), fx(0.0), fx(0.999)), fx(0.999));
    assert_eq!(clamp(fx(0.0), fx(0.0), fx(0.999)), fx(0.0));
}

#[test]
fn trigonometry_at_zero() {
    assert_eq!(sin(Fixed::zero()).raw(), 0);
    assert_eq!(cos(Fixed::zero()).raw(), ONE_RAW);
    assert_eq!(tan(Fixed::zero()).raw(), 0);
}

#[test]
fn trigonometry_at_known_angles() {
    assert_eq!(sin(degrees_to_radians(Fixed::from_int(30))).raw(), 2147483647);
    assert_eq!(cos(degrees_to_radians(Fixed::from_int(60))).raw(), 2147483648);
    assert_eq!(tan(degrees_to_radians(Fixed::from_int(45))).raw(), 4294967294);
    assert_eq!(tan(degrees_to_radians(Fixed::from_int(10))).raw(), 757318614);
    assert_eq!(sin(degrees_to_radians(Fixed::from_int(-30))).raw(), -2147483647);
    assert_eq!(tan(degrees_to_radians(Fixed::from_int(-45))).raw(), -4294967294);
}

#[test]
fn tangent_is_close_to_the_true_tangent() {
    for degrees in [1, 5, 10, 20, 30, 45, 60, 70, 80] {
        let x = degrees_to_radians(Fixed::from_int(degrees));
        let expected = (degrees as f64).to_radians().tan();
        assert!((as_f64(tan(x)) - expected).abs() <= 1e-7, "{}", degrees);
        assert!((as_f64(sin(x)) - (degrees as f64).to_radians().sin()).abs() <= 1e-8);
        assert!((as_f64(cos(x)) - (degrees as f64).to_radians().cos()).abs() <= 1e-8);
    }
}

#[test]
fn checked_tangent_refuses_a_quarter_turn() {
    let quarter = degrees_to_radians(Fixed::from_int(90));
    assert_eq!(cos(quarter).raw(), 0);
    assert_eq!(checked_tan(quarter), None);
    let eighth = degrees_to_radians(Fixed::from_int(45));
    assert_eq!(checked_tan(eighth), Some(Fixed::from_raw(4294967294)));
}
