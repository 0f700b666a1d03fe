use hw_raytracer::fixed::{Fixed, SCALE};
use hw_raytracer::trig::sin_cos_turns;

fn turns(x: f64) -> Fixed {
    Fixed::from_raw((x * 4294967296.0).round() as i64)
}

fn value(f: Fixed) -> f64 {
    f.raw as f64 / 4294967296.0
}

#[test]
fn quarter_turns_are_exact() {
    assert_eq!(sin_cos_turns(Fixed::zero()), (Fixed::zero(), Fixed::one()));
    assert_eq!(sin_cos_turns(Fixed::from_ratio(1, 4)), (Fixed::one(), Fixed::zero()));
    assert_eq!(sin_cos_turns(Fixed::from_ratio(1, 2)), (Fixed::zero(), Fixed::from_raw(-SCALE)));
    assert_eq!(sin_cos_turns(Fixed::from_ratio(3, 4)), (Fixed::from_raw(-SCALE), Fixed::zero()));
}

#[test]
fn sine_and_cosine_follow_the_circle() {
    let mut k = 0;
    while k < 1000 {
        let x = k as f64 / 1000.0;
        let (sin, cos) = sin_cos_turns(turns(x));
        let angle = x * 2.0 * std::f64::consts::PI;
        assert!((value(sin) - angle.sin()).abs() < 1e-7, "sine of {} turns", x);
        assert!((value(cos) - angle.cos()).abs() < 1e-7, "cosine of {} turns", x);
        k += 1;
    }
}

#[test]
fn only_the_fraction_of_a_turn_counts() {
    let a = sin_cos_turns(Fixed::from_ratio(1, 8));
    assert_eq!(sin_cos_turns(Fixed::from_ratio(9, 8)), a);
    assert_eq!(sin_cos_turns(Fixed::from_ratio(-7, 8)), a);
}

#[test]
fn results_stay_within_one() {
    let mut raw: i64 = -3 * SCALE;
    while raw < 3 * SCALE {
        let (sin, cos) = sin_cos_turns(Fixed::from_raw(raw));
        assert!(-SCALE <= sin.raw && sin.raw <= SCALE);
        assert!(-SCALE <= cos.raw && cos.raw <= SCALE);
        raw += 12345677;
    }
}
