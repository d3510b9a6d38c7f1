use vis_rs::fraction::Fraction;

#[test]
fn test_add() {
    let a = Fraction::new(1, 2).unwrap();
    let b = Fraction::new(1, 3).unwrap();
    let sum = a.add(b);
    assert_eq!(sum, Fraction::new(5, 6).unwrap());
}

#[test]
fn test_mul() {
    let a = Fraction::new(2, 4).unwrap();
    let b = Fraction::new(-2, 1).unwrap();
    let mul_result = a.mul(b);
    assert_eq!(mul_result, Fraction::new(-1, 1).unwrap());
}

#[test]
fn rejects_zero_divisor() {
    assert!(Fraction::new(3, 0).is_none());
}

#[test]
fn simplify_reduces_to_lowest_terms() {
    let f = Fraction::new(6, 8).unwrap().simplify();
    assert_eq!(f.numer(), 3);
    assert_eq!(f.denom(), 4);
}

#[test]
fn rounded_behaviour() {
    // 7/2 = 3.5 rounds away from zero.
    assert_eq!(Fraction::new(7, 2).unwrap().rounded(), 4);
    assert_eq!(Fraction::new(-7, 2).unwrap().rounded(), -4);
    // 1/3: the reduced remainder 1 is not below floor(3/2) = 1, so it
    // rounds up, matching the mixed-number comparison rule.
    assert_eq!(Fraction::new(1, 3).unwrap().rounded(), 1);
    assert_eq!(Fraction::new(9, 3).unwrap().rounded(), 3);
}

#[test]
fn mixed_number_splits_value() {
    let (whole, frac) = Fraction::new(7, 2).unwrap().mixed_number();
    assert_eq!(whole, 3);
    let f = frac.unwrap();
    assert_eq!(f.numer(), 1);
    assert_eq!(f.denom(), 2);
    let (whole2, frac2) = Fraction::new(4, 2).unwrap().mixed_number();
    assert_eq!(whole2, 2);
    assert!(frac2.is_none());
}

#[test]
fn reciprocal_inverts() {
    let f = Fraction::new(-3, 4).unwrap();
    let r = f.reciprocal();
    assert_eq!(r, Fraction::new(-4, 3).unwrap());
    assert!(Fraction::new(0, 5).unwrap().reciprocal().is_zero());
}

#[test]
fn try_ops_report_range() {
    let big = Fraction::new(i64::MAX - 1, 1).unwrap();
    assert!(big.try_mul(big).is_none());
    let ok = Fraction::new(1, 4).unwrap().try_add(Fraction::new(1, 4).unwrap()).unwrap();
    assert_eq!(ok, Fraction::new(1, 2).unwrap());
    assert!(Fraction::new(1, 2).unwrap().try_div(Fraction::new(0, 1).unwrap()).is_none());
    let q = Fraction::new(1, 2).unwrap().try_div(Fraction::new(3, 4).unwrap()).unwrap();
    assert_eq!(q, Fraction::new(2, 3).unwrap());
}
