use piecewise_fcn_lib::rational::Rational;

fn rat(num: i64, den: i64) -> Rational {
    Rational::new(num, den).unwrap()
}

fn as_f64(r: Rational) -> f64 {
    r.numerator() as f64 / r.denominator() as f64
}

#[test]
fn polynomial() {
    let a = piecewise_fcn_lib::polynomial::Polynomial::new(
        rat(1, 1),
        (rat(0, 1), rat(1, 1)),
        vec![rat(4, 1), rat(5, 1)],
        false,
    );
    assert!(a.generate(rat(0, 1)).unwrap().equals(rat(4, 1)));
    assert!(a.generate(rat(1, 2)).unwrap().equals(rat(13, 2)));
}

#[test]
fn out_of_bounds() {
    let a = piecewise_fcn_lib::polynomial::Polynomial::new(
        rat(1, 1),
        (rat(0, 1), rat(1, 1)),
        vec![rat(4, 1), rat(5, 1)],
        false,
    );
    assert!(a.generate(rat(-1, 2)).is_none());
    assert!(a.generate(rat(3, 2)).is_none());
}

#[test]
fn reverse() {
    let a = piecewise_fcn_lib::polynomial::Polynomial::new(
        rat(1, 1),
        (rat(0, 1), rat(1, 1)),
        vec![rat(4, 1), rat(5, 1)],
        true,
    );
    assert!(a.generate(rat(0, 1)).unwrap().equals(rat(9, 1)));
}

#[test]
fn subfunction_polynomial() {
    let a = piecewise_fcn_lib::polynomial::Polynomial::new(
        rat(1, 1),
        (rat(0, 1), rat(1, 1)),
        vec![rat(4, 1), rat(5, 1)],
        false,
    );
    assert!(a.generate(rat(0, 1)).unwrap().equals(rat(4, 1)));
    assert!(a.generate(rat(1, 2)).unwrap().equals(rat(13, 2)));
}

#[test]
fn subfunction_out_of_bounds() {
    let a = piecewise_fcn_lib::polynomial::Polynomial::new(
        rat(1, 1),
        (rat(0, 1), rat(1, 1)),
        vec![rat(4, 1), rat(5, 1)],
        false,
    );
    assert!(a.generate(rat(-1, 2)).is_none());
    assert!(a.generate(rat(3, 2)).is_none());
}

#[test]
fn subfunction_reverse() {
    let a = piecewise_fcn_lib::polynomial::Polynomial::new(
        rat(1, 1),
        (rat(0, 1), rat(1, 1)),
        vec![rat(4, 1), rat(5, 1)],
        true,
    );
    assert!(a.generate(rat(0, 1)).unwrap().equals(rat(9, 1)));
}

#[test]
fn bump_polynomial() {
    let a = piecewise_fcn_lib::polynomial::Polynomial::new(
        rat(1, 1),
        (rat(0, 1), rat(1, 1)),
        vec![rat(4, 1), rat(5, 1)],
        false,
    );
    assert!(a.generate(rat(0, 1)).unwrap().equals(rat(4, 1)));
    assert!(a.generate(rat(1, 2)).unwrap().equals(rat(13, 2)));
}

#[test]
fn polynomial_out_of_bounds() {
    let a = piecewise_fcn_lib::polynomial::Polynomial::new(
        rat(1, 1),
        (rat(0, 1), rat(1, 1)),
        vec![rat(4, 1), rat(5, 1)],
        false,
    );
    assert!(a.generate(rat(-1, 2)).is_none());
    assert!(a.generate(rat(3, 2)).is_none());
}

#[test]
fn bump_reverse() {
    let a = piecewise_fcn_lib::polynomial::Polynomial::new(
        rat(1, 1),
        (rat(0, 1), rat(1, 1)),
        vec![rat(4, 1), rat(5, 1)],
        true,
    );
    assert!(a.generate(rat(0, 1)).unwrap().equals(rat(9, 1)));
}

/// Boundary rule: for any primitive, the value exactly at `duration`, and at
/// any negative coordinate however small, is undefined.
#[test]
fn boundary_undefined() {
    let p = piecewise_fcn_lib::polynomial::Polynomial::new(
        rat(2, 1),
        (rat(-1, 1), rat(1, 1)),
        vec![rat(1, 1), rat(2, 1)],
        false,
    );
    assert!(p.generate(rat(2, 1)).is_none());
    assert!(p.generate(rat(-1, 1000000)).is_none());
    let b = piecewise_fcn_lib::bump::Bump::new(
        rat(2, 1),
        (rat(-1, 1), rat(1, 1)),
        rat(1, 1),
        rat(0, 1),
    );
    assert!(b.generate(rat(2, 1)).is_none());
    assert!(b.generate(rat(-1, 1000000)).is_none());
}

/// The in-domain value is the power series of the coefficients at the mapped
/// coordinate: with coefficients [1, 2, 3] over (0, 1) at x = 1/2 the mapped
/// coordinate is 1/2 and the value 1 + 2*(1/2) + 3*(1/4) = 11/4.
#[test]
fn power_series_value() {
    let a = piecewise_fcn_lib::polynomial::Polynomial::new(
        rat(1, 1),
        (rat(0, 1), rat(1, 1)),
        vec![rat(1, 1), rat(2, 1), rat(3, 1)],
        false,
    );
    assert!(a.generate(rat(1, 2)).unwrap().equals(rat(11, 4)));
}

/// An empty coefficient list yields a constant zero, not an error — even on
/// interval parameters so extreme that the mapping itself could not be
/// represented, since nothing needs mapping.
#[test]
fn empty_coefficients() {
    let a = piecewise_fcn_lib::polynomial::Polynomial::new(
        rat(1, 1),
        (rat(0, 1), rat(1, 1)),
        vec![],
        false,
    );
    assert!(a.generate(rat(1, 2)).unwrap().equals(rat(0, 1)));
    assert!(a.generate(rat(1, 1)).is_none());
    let b = piecewise_fcn_lib::polynomial::Polynomial::new(
        rat(1, 1),
        (rat(i64::MAX, 1), rat(i64::MIN, 1)),
        vec![],
        false,
    );
    assert!(b.generate(rat(1, 2)).unwrap().equals(rat(0, 1)));
}

/// A non-positive duration is accepted at construction and makes the
/// primitive dead weight: no coordinate is ever in its domain.
#[test]
fn dead_weight_duration() {
    let a = piecewise_fcn_lib::polynomial::Polynomial::new(
        rat(0, 1),
        (rat(0, 1), rat(1, 1)),
        vec![rat(4, 1)],
        false,
    );
    assert!(a.generate(rat(0, 1)).is_none());
    let b = piecewise_fcn_lib::polynomial::Polynomial::new(
        rat(-1, 1),
        (rat(0, 1), rat(1, 1)),
        vec![rat(4, 1)],
        false,
    );
    assert!(b.generate(rat(0, 1)).is_none());
}

/// The reverse flag mirrors the mapping: the reversed polynomial at x equals
/// the unreversed polynomial at duration - x.
#[test]
fn reverse_mirror() {
    let coeffs = vec![rat(1, 1), rat(2, 1), rat(3, 1)];
    let fwd = piecewise_fcn_lib::polynomial::Polynomial::new(
        rat(1, 1),
        (rat(-2, 1), rat(3, 1)),
        coeffs.clone(),
        false,
    );
    let rev = piecewise_fcn_lib::polynomial::Polynomial::new(
        rat(1, 1),
        (rat(-2, 1), rat(3, 1)),
        coeffs,
        true,
    );
    let at_rev = rev.generate(rat(1, 4)).unwrap();
    let at_fwd = fwd.generate(rat(3, 4)).unwrap();
    assert!(at_rev.equals(at_fwd));
    assert_eq!(as_f64(at_rev), as_f64(at_fwd));
}
