use combat_demo::common::fixed::{Fixed, ONE_BITS};
use combat_demo::common::time::Time;
use fixed::types::I32F32;

fn fx(v: f64) -> Fixed {
    Fixed::from_bits(I32F32::from_num(v).to_bits())
}

#[test]
fn nanos_round_trip() {
    let t = Time::from_nanos(1_234_567);
    assert_eq!(t.pure(), 1_234_567);
    assert_eq!(Time::zero().pure(), 0);
    assert_eq!(Time::default(), Time::zero());
}

#[test]
fn add_and_sub() {
    let a = Time::from_nanos(500);
    let b = Time::from_nanos(120);
    assert_eq!((a + b).pure(), 620);
    assert_eq!((a - b).pure(), 380);
    assert_eq!((a + b) - b, a);
    let mut c = a;
    c += b;
    assert_eq!(c.pure(), 620);
    c -= a;
    assert_eq!(c, b);
    assert!(b < a);
}

#[test]
fn conversions_from_units() {
    assert_eq!(Time::from_micro(Fixed::from_int(3)).pure(), 3_000);
    assert_eq!(Time::from_ms(Fixed::from_int(2)).pure(), 2_000_000);
    assert_eq!(Time::from_sec(Fixed::from_int(1)).pure(), 1_000_000_000);
    // fractions of a unit are rounded down to whole nanoseconds
    assert_eq!(Time::from_micro(fx(1.5)).pure(), 1_500);
    assert_eq!(Time::from_sec(fx(0.25)).pure(), 250_000_000);
    assert_eq!(Time::from_ms(fx(0.0000001)).pure(), 0);
}

#[test]
fn conversions_to_units() {
    let t = Time::from_nanos(1_500_000_000);
    assert_eq!(t.nano().to_bits(), 1_500_000_000 * ONE_BITS);
    assert_eq!(I32F32::from_bits(t.micro().to_bits()), I32F32::from_num(1_500_000));
    assert_eq!(I32F32::from_bits(t.ms().to_bits()), I32F32::from_num(1_500));
    assert_eq!(I32F32::from_bits(t.sec().to_bits()), I32F32::from_num(1.5));
    let tick = Time::from_nanos(8_333_333);
    assert_eq!(
        tick.sec().to_bits(),
        (8_333_333i64 * ONE_BITS) / 1_000_000_000
    );
}

#[test]
fn fixed_arithmetic_matches_the_fixed_crate() {
    let a = fx(2.5);
    let b = fx(-0.75);
    assert_eq!(a.add(b).to_bits(), fx(1.75).to_bits());
    assert_eq!(a.sub(b).to_bits(), fx(3.25).to_bits());
    assert_eq!(a.mul(b).to_bits(), fx(-1.875).to_bits());
    assert_eq!(a.div(b).to_bits(), (I32F32::from_num(2.5) / I32F32::from_num(-0.75)).to_bits());
    assert_eq!(a.div_int(2).to_bits(), fx(1.25).to_bits());
    assert_eq!(Fixed::from_int(9).sqrt().to_bits(), fx(3.0).to_bits());
    assert_eq!(Fixed::from_int(2).sqrt().to_bits(), I32F32::SQRT_2.to_bits());
    assert_eq!(Fixed::zero().to_bits(), 0);
    assert_eq!(Fixed::from_int(-3).to_bits(), -3 * ONE_BITS);
}

#[test]
fn fixed_rounding() {
    // products round toward negative infinity, quotients toward zero
    let tiny = Fixed::from_bits(1);
    assert_eq!(tiny.mul(fx(0.5)).to_bits(), 0);
    assert_eq!(Fixed::from_bits(-1).mul(fx(0.5)).to_bits(), -1);
    assert_eq!(Fixed::from_bits(-3).div_int(2).to_bits(), -1);
    assert_eq!(Fixed::from_int(-1).div(Fixed::from_int(3)).to_bits(), -(ONE_BITS / 3));
}

#[test]
fn times_order_by_nanoseconds() {
    let a = Time::from_nanos(3);
    let b = Time::from_nanos(5);
    assert!(a < b);
    assert!(a <= b);
    assert!(!(b <= a));
    assert!(b > a);
    assert_eq!(a.partial_cmp(&Time::from_nanos(3)), Some(std::cmp::Ordering::Equal));
    assert_eq!(a.cmp(&b), std::cmp::Ordering::Less);
    assert_eq!(Time::from_nanos(0), Time::zero());
}

#[test]
fn compound_assignment_wraps_at_the_ends() {
    let mut t = Time::from_nanos(u128::MAX);
    t += Time::from_nanos(2);
    assert_eq!(t.pure(), 1);
    t -= Time::from_nanos(3);
    assert_eq!(t.pure(), u128::MAX - 1);
}
