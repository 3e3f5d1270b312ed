use piecewise_fcn_lib::rational::Rational;

fn rat(num: i64, den: i64) -> Rational {
    Rational::new(num, den).unwrap()
}

#[test]
fn exact_arithmetic() {
    let half = rat(1, 2);
    let third = rat(1, 3);
    assert!(half.add(third).unwrap().equals(rat(5, 6)));
    assert!(half.sub(third).unwrap().equals(rat(1, 6)));
    assert!(half.mul(third).unwrap().equals(rat(1, 6)));
    assert!(half.div(third).unwrap().equals(rat(3, 2)));
    assert!(rat(1, 2).equals(rat(2, 4)));
    assert!(!rat(1, 2).equals(rat(2, 3)));
}

#[test]
fn comparisons() {
    assert!(rat(1, 3).lt(rat(1, 2)));
    assert!(!rat(1, 2).lt(rat(1, 2)));
    assert!(rat(1, 2).le(rat(1, 2)));
    assert!(rat(-5, 2).lt(rat(-2, 1)));
}

#[test]
fn zero_denominator_rejected() {
    assert!(Rational::new(1, 0).is_none());
}

#[test]
fn negative_denominator_normalized() {
    let r = Rational::new(3, -6).unwrap();
    assert!(r.equals(rat(-1, 2)));
    assert!(r.denominator() > 0);
}

#[test]
fn overflow_reported() {
    let big = rat(i64::MAX, 1);
    assert!(big.add(rat(1, 1)).is_none());
    assert!(big.mul(rat(2, 1)).is_none());
    // A sum that stays representable is produced even near the edge.
    assert!(big.sub(rat(1, 1)).unwrap().equals(rat(i64::MAX - 1, 1)));
}
