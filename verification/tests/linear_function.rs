//! Linear function coefficient sums (values in fixed-point units of
//! 1/100000).

use assessment::fuzzy::membership::piecewise::LinearFunction;

#[test]
fn sum_references() {
    let a = LinearFunction::new(210000, 310000);
    let b = LinearFunction::new(230000, 370000);

    let sum = a.sum(&b);
    assert_eq!(sum.slope(), 440000);
    assert_eq!(sum.intercept(), 680000);
}

#[test]
fn sum_ownerships() {
    let a = LinearFunction::new(210000, 310000);
    let b = LinearFunction::new(230000, 370000);

    let sum = a.sum(&b);
    assert_eq!(sum.slope(), 440000);
    assert_eq!(sum.intercept(), 680000);
}

#[test]
fn sum_ownership_reference() {
    let a = LinearFunction::new(210000, 310000);
    let b = LinearFunction::new(230000, 370000);

    let sum = a.sum(&b);
    assert_eq!(sum.slope(), 440000);
    assert_eq!(sum.intercept(), 680000);
}

#[test]
fn sum_reference_ownership() {
    let a = LinearFunction::new(210000, 310000);
    let b = LinearFunction::new(230000, 370000);

    let sum = a.sum(&b);
    assert_eq!(sum.slope(), 440000);
    assert_eq!(sum.intercept(), 680000);
}

#[test]
fn sum_is_commutative() {
    let a = LinearFunction::new(210000, 310000);
    let b = LinearFunction::new(230000, 370000);
    let ab = a.sum(&b);
    let ba = b.sum(&a);
    assert_eq!(ab.slope(), ba.slope());
    assert_eq!(ab.intercept(), ba.intercept());
}

#[test]
fn new_flushes_single_units_to_zero() {
    let f = LinearFunction::new(1, -1);
    assert_eq!(f.slope(), 0);
    assert_eq!(f.intercept(), 0);
    let g = LinearFunction::new(2, -2);
    assert_eq!(g.slope(), 2);
    assert_eq!(g.intercept(), -2);
}

#[test]
fn linear_function_accessors() {
    let f = LinearFunction::new(230000, 340000);
    assert_eq!(f.slope(), 230000);
    assert_eq!(f.intercept(), 340000);
}
