use piecewise_fcn_lib::factory::Factory;
use piecewise_fcn_lib::function::Function;
use piecewise_fcn_lib::rational::Rational;
use piecewise_fcn_lib::value::Value;

fn rat(num: i64, den: i64) -> Rational {
    Rational::new(num, den).unwrap()
}

fn assert_rational(expected: Rational, v: &Value) {
    assert_eq!(0, v.term_count());
    assert!(v.get_base().equals(expected));
}

/// A single function with no delay and two sub-functions chained together;
/// functions are valid over the same half-open domain as sub-functions.
#[test]
fn basic() {
    let mut a = Function::new();
    let factory = Factory;

    assert!(a.add_subfunction(factory.polynomial(
        rat(1, 1),
        (rat(0, 1), rat(1, 1)),
        vec![rat(7, 1), rat(4, 1), rat(8, 1)],
        false,
    )));
    assert!(a.add_subfunction(factory.polynomial(
        rat(1, 1),
        (rat(-1, 1), rat(1, 1)),
        vec![rat(2, 1), rat(0, 1), rat(-2, 1)],
        false,
    )));

    let y100: Vec<i64> = vec![
        700, 748, 812, 892, 988, 1100, 1228, 1372, 1532, 1708, 0, 72, 128, 168, 192, 200, 192,
        168, 128, 72, 1900,
    ];

    for k in 0..20i64 {
        let x = rat(k, 10);
        let v = a.generate(x).unwrap();
        assert_rational(rat(y100[k as usize], 100), &v);
    }
    assert!(a.generate(a.get_limits().1).is_none());
}

/// Two functions stacked together with zero delay cancel exactly.
#[test]
fn stacked() {
    let factory = Factory;
    let mut a = Function::new();
    assert!(a.add_subfunction(factory.polynomial(
        rat(1, 1),
        (rat(-1, 1), rat(1, 1)),
        vec![rat(2, 1), rat(0, 1), rat(-2, 1)],
        false,
    )));
    let mut b = Function::new();
    assert!(b.add_subfunction(factory.polynomial(
        rat(1, 1),
        (rat(-1, 1), rat(1, 1)),
        vec![rat(-2, 1), rat(0, 1), rat(2, 1)],
        false,
    )));
    assert!(a.add_function(b));

    for x in 0..100i64 {
        let v = a.generate(rat(x, 100)).unwrap();
        assert_rational(rat(0, 1), &v);
    }
}

/// Two functions add correctly when given delays:
///        0.0      1.0         2.0         3.0
/// fcn1             [-----------)
/// fcn2    [--------------------------------)
#[test]
fn stack_delay1() {
    let factory = Factory;
    let mut a = Function::new_delay(rat(1, 1));
    let mut b = Function::new_delay(rat(0, 1));
    assert!(a.add_subfunction(factory.polynomial(
        rat(1, 1),
        (rat(0, 1), rat(1, 1)),
        vec![rat(1, 1)],
        false,
    )));
    assert!(b.add_subfunction(factory.polynomial(
        rat(3, 1),
        (rat(0, 1), rat(1, 1)),
        vec![rat(1, 1)],
        false,
    )));
    assert!(a.add_function(b));
    assert_rational(rat(1, 1), &a.generate(rat(1, 2)).unwrap());
    assert_rational(rat(2, 1), &a.generate(rat(1, 1)).unwrap());
    assert_rational(rat(2, 1), &a.generate(rat(3, 2)).unwrap());
    assert_rational(rat(1, 1), &a.generate(rat(2, 1)).unwrap());
    assert_rational(rat(1, 1), &a.generate(rat(5, 2)).unwrap());
}

/// Two functions add correctly when given delays:
///        0.0      1.0         2.0         3.0
/// fcn1    [--------------------------------)
/// fcn2             [-----------)
#[test]
fn stack_delay2() {
    let factory = Factory;
    let mut a = Function::new_delay(rat(0, 1));
    let mut b = Function::new_delay(rat(1, 1));
    assert!(a.add_subfunction(factory.polynomial(
        rat(3, 1),
        (rat(0, 1), rat(1, 1)),
        vec![rat(1, 1)],
        false,
    )));
    assert!(b.add_subfunction(factory.polynomial(
        rat(1, 1),
        (rat(0, 1), rat(1, 1)),
        vec![rat(1, 1)],
        false,
    )));
    assert!(a.add_function(b));
    assert_rational(rat(1, 1), &a.generate(rat(1, 2)).unwrap());
    assert_rational(rat(2, 1), &a.generate(rat(1, 1)).unwrap());
    assert_rational(rat(2, 1), &a.generate(rat(3, 2)).unwrap());
    assert_rational(rat(1, 1), &a.generate(rat(2, 1)).unwrap());
    assert_rational(rat(1, 1), &a.generate(rat(5, 2)).unwrap());
}

/// Two functions add correctly when given delays:
///       -1.0         0.0      1.0         2.0         3.0
/// fcn1    [-----------)
/// fcn2                         [-----------)
#[test]
fn stack_delay3() {
    let factory = Factory;
    let mut a = Function::new_delay(rat(-1, 1));
    let mut b = Function::new_delay(rat(1, 1));
    assert!(a.add_subfunction(factory.polynomial(
        rat(1, 1),
        (rat(0, 1), rat(1, 1)),
        vec![rat(1, 1)],
        false,
    )));
    assert!(b.add_subfunction(factory.polynomial(
        rat(1, 1),
        (rat(0, 1), rat(1, 1)),
        vec![rat(1, 1)],
        false,
    )));
    assert!(a.add_function(b));
    assert_rational(rat(1, 1), &a.generate(rat(-1, 1)).unwrap());
    assert_rational(rat(0, 1), &a.generate(rat(0, 1)).unwrap());
    assert_rational(rat(1, 1), &a.generate(rat(1, 1)).unwrap());
    assert!(a.generate(rat(2, 1)).is_none());
}

/// Two functions add correctly when given delays:
///       -1.0         0.0      1.0         2.0         3.0
/// fcn1                         [-----------)
/// fcn2    [-----------)
#[test]
fn stack_delay4() {
    let factory = Factory;
    let mut a = Function::new_delay(rat(1, 1));
    let mut b = Function::new_delay(rat(-1, 1));
    assert!(a.add_subfunction(factory.polynomial(
        rat(1, 1),
        (rat(0, 1), rat(1, 1)),
        vec![rat(1, 1)],
        false,
    )));
    assert!(b.add_subfunction(factory.polynomial(
        rat(1, 1),
        (rat(0, 1), rat(1, 1)),
        vec![rat(1, 1)],
        false,
    )));
    assert!(a.add_function(b));
    assert_rational(rat(1, 1), &a.generate(rat(-1, 1)).unwrap());
    assert_rational(rat(0, 1), &a.generate(rat(0, 1)).unwrap());
    assert_rational(rat(1, 1), &a.generate(rat(1, 1)).unwrap());
    assert!(a.generate(rat(2, 1)).is_none());
}

/// Two functions add correctly when given delays:
///       -1.0         0.0      1.0         2.0         3.0
/// fcn1                [--------------------)
/// fcn2    [--------------------)
#[test]
fn stack_delay5() {
    let factory = Factory;
    let mut a = Function::new_delay(rat(0, 1));
    let mut b = Function::new_delay(rat(-1, 1));
    assert!(a.add_subfunction(factory.polynomial(
        rat(2, 1),
        (rat(0, 1), rat(1, 1)),
        vec![rat(1, 1)],
        false,
    )));
    assert!(b.add_subfunction(factory.polynomial(
        rat(2, 1),
        (rat(0, 1), rat(1, 1)),
        vec![rat(1, 1)],
        false,
    )));
    assert!(a.add_function(b));
    assert_rational(rat(1, 1), &a.generate(rat(-1, 1)).unwrap());
    assert_rational(rat(2, 1), &a.generate(rat(0, 1)).unwrap());
    assert_rational(rat(1, 1), &a.generate(rat(1, 1)).unwrap());
    assert!(a.generate(rat(2, 1)).is_none());
}

/// Two functions add correctly when given delays:
///       -1.0         0.0      1.0         2.0         3.0
/// fcn1    [--------------------)
/// fcn2                [--------------------)
#[test]
fn stack_delay6() {
    let factory = Factory;
    let mut a = Function::new_delay(rat(-1, 1));
    let mut b = Function::new_delay(rat(0, 1));
    assert!(a.add_subfunction(factory.polynomial(
        rat(2, 1),
        (rat(0, 1), rat(1, 1)),
        vec![rat(1, 1)],
        false,
    )));
    assert!(b.add_subfunction(factory.polynomial(
        rat(2, 1),
        (rat(0, 1), rat(1, 1)),
        vec![rat(1, 1)],
        false,
    )));
    assert!(a.add_function(b));
    assert_rational(rat(1, 1), &a.generate(rat(-1, 1)).unwrap());
    assert_rational(rat(2, 1), &a.generate(rat(0, 1)).unwrap());
    assert_rational(rat(1, 1), &a.generate(rat(1, 1)).unwrap());
    assert!(a.generate(rat(2, 1)).is_none());
}

/// Concatenation: with segments of durations 1 and 2, a point just before
/// the seam belongs to the first segment, the seam itself to the second, and
/// the total duration is out of domain.
#[test]
fn concatenation_seam() {
    let factory = Factory;
    let mut a = Function::new();
    assert!(a.add_subfunction(factory.polynomial(
        rat(1, 1),
        (rat(0, 1), rat(1, 1)),
        vec![rat(10, 1)],
        false,
    )));
    assert!(a.add_subfunction(factory.polynomial(
        rat(2, 1),
        (rat(0, 1), rat(1, 1)),
        vec![rat(20, 1), rat(1, 1)],
        false,
    )));
    assert_rational(rat(10, 1), &a.generate(rat(999, 1000)).unwrap());
    assert_rational(rat(20, 1), &a.generate(rat(1, 1)).unwrap());
    assert_rational(rat(41, 2), &a.generate(rat(2, 1)).unwrap());
    assert!(a.generate(rat(3, 1)).is_none());
}

/// Superposition: a child with a disjoint domain contributes zero, not an
/// undefined value — two unit bumps, one undelayed and one leading by one,
/// summed at zero equal the undelayed bump's value alone.
#[test]
fn superposition_disjoint() {
    let factory = Factory;
    let mut a = Function::new();
    assert!(a.add_subfunction(factory.bump(
        rat(1, 1),
        (rat(-1, 1), rat(1, 1)),
        rat(1, 1),
        rat(0, 1),
    )));
    let mut b = Function::new_delay(rat(-1, 1));
    assert!(b.add_subfunction(factory.bump(
        rat(1, 1),
        (rat(-1, 1), rat(1, 1)),
        rat(1, 1),
        rat(0, 1),
    )));
    let alone = a.generate(rat(0, 1)).unwrap();
    assert!(a.add_function(b));
    let summed = a.generate(rat(0, 1)).unwrap();
    assert_eq!(alone.term_count(), summed.term_count());
    assert!(alone.get_base().equals(summed.get_base()));
    for i in 0..alone.term_count() {
        assert!(alone.term(i).scale.equals(summed.term(i).scale));
        assert!(alone.term(i).arg.equals(summed.term(i).arg));
    }
}

/// Limits propagation: a node with delay -1 wrapping a duration-1 segment
/// spans [-1, 0); nesting it under a wider parent only widens the parent's
/// limits, never narrows them.
#[test]
fn limits_propagation() {
    let factory = Factory;
    let mut inner = Function::new_delay(rat(-1, 1));
    assert!(inner.add_subfunction(factory.polynomial(
        rat(1, 1),
        (rat(0, 1), rat(1, 1)),
        vec![rat(1, 1)],
        false,
    )));
    let lim = inner.get_limits();
    assert!(lim.0.equals(rat(-1, 1)));
    assert!(lim.1.equals(rat(0, 1)));

    let mut outer = Function::new();
    assert!(outer.add_subfunction(factory.polynomial(
        rat(2, 1),
        (rat(0, 1), rat(1, 1)),
        vec![rat(1, 1)],
        false,
    )));
    assert!(outer.add_function(inner));
    let outer_lim = outer.get_limits();
    assert!(outer_lim.0.equals(rat(-1, 1)));
    assert!(outer_lim.1.equals(rat(2, 1)));
}

/// A mutation whose limits rescan cannot be represented exactly is refused
/// and leaves the node as it was.
#[test]
fn unrepresentable_mutation_refused() {
    let factory = Factory;
    let mut a = Function::new();
    assert!(a.add_subfunction(factory.polynomial(
        rat(i64::MAX, 1),
        (rat(0, 1), rat(1, 1)),
        vec![rat(1, 1)],
        false,
    )));
    let before = a.get_limits();
    // A second segment of the same duration pushes the stop bound past the
    // representable range; the segment is not added.
    assert!(!a.add_subfunction(factory.polynomial(
        rat(i64::MAX, 1),
        (rat(0, 1), rat(1, 1)),
        vec![rat(1, 1)],
        false,
    )));
    let after = a.get_limits();
    assert!(before.0.equals(after.0));
    assert!(before.1.equals(after.1));
    assert_rational(rat(1, 1), &a.generate(rat(5, 1)).unwrap());
}

/// An empty function is defined nowhere.
#[test]
fn empty_function_undefined() {
    let a = Function::new();
    assert!(a.generate(rat(0, 1)).is_none());
    let b = Function::new_delay(rat(5, 1));
    assert!(b.generate(rat(5, 1)).is_none());
}
