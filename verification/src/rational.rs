//! Exact rational scalars.
//!
//! Every coordinate, duration, coefficient and amplitude in this library is a
//! rational number held as a signed 64-bit numerator over a positive 64-bit
//! denominator.  Arithmetic is exact: an operation either returns the exact
//! mathematical result or reports, by returning `None`, that the result does
//! not fit the representation.  Comparisons always succeed.

use vstd::prelude::*;

verus! {

/// The mathematical value of a rational: a pair of unbounded integers with a
/// positive denominator.  Contracts throughout the crate speak of these.
pub ghost struct Frac {
    pub num: int,
    pub den: int,
}

/// Well-formedness of a mathematical rational: the denominator is positive.
pub open spec fn frac_wf(f: Frac) -> bool {
    f.den > 0
}

/// Equality of rationals by cross-multiplication.
pub open spec fn frac_eq(a: Frac, b: Frac) -> bool {
    a.num * b.den == b.num * a.den
}

/// `a <= b` by cross-multiplication (meaningful when both are well-formed).
pub open spec fn frac_le(a: Frac, b: Frac) -> bool {
    a.num * b.den <= b.num * a.den
}

/// `a < b` by cross-multiplication (meaningful when both are well-formed).
pub open spec fn frac_lt(a: Frac, b: Frac) -> bool {
    a.num * b.den < b.num * a.den
}

pub open spec fn frac_zero() -> Frac {
    Frac { num: 0, den: 1 }
}

pub open spec fn frac_one() -> Frac {
    Frac { num: 1, den: 1 }
}

pub open spec fn frac_add(a: Frac, b: Frac) -> Frac {
    Frac { num: a.num * b.den + b.num * a.den, den: a.den * b.den }
}

pub open spec fn frac_sub(a: Frac, b: Frac) -> Frac {
    Frac { num: a.num * b.den - b.num * a.den, den: a.den * b.den }
}

pub open spec fn frac_mul(a: Frac, b: Frac) -> Frac {
    Frac { num: a.num * b.num, den: a.den * b.den }
}

/// Quotient of rationals, with the sign moved into the numerator so that the
/// denominator stays positive.  Meaningful only when `b.num != 0`.
pub open spec fn frac_div(a: Frac, b: Frac) -> Frac {
    if b.num >= 0 {
        Frac { num: a.num * b.den, den: a.den * b.num }
    } else {
        Frac { num: -(a.num * b.den), den: -(a.den * b.num) }
    }
}

pub open spec fn in_i64(x: int) -> bool {
    i64::MIN <= x <= i64::MAX
}

/// Whether a mathematical rational fits the executable representation as it
/// stands, without reduction.
pub open spec fn frac_fits(f: Frac) -> bool {
    in_i64(f.num) && in_i64(f.den)
}

/// The product of two 64-bit-sized integers stays well inside the 128-bit
/// range, and two such products can be added without overflow.
proof fn lemma_mul_i64_range(a: int, b: int)
    by (nonlinear_arith)
    requires
        in_i64(a),
        in_i64(b),
    ensures
        -0x4000_0000_0000_0000_0000_0000_0000_0000 <= a * b
            <= 0x4000_0000_0000_0000_0000_0000_0000_0000,
{
}

/// The product of an integer in the 64-bit range with a positive integer in
/// that range leaves room to add a second such product inside 128 bits.
proof fn lemma_mul_by_den_range(a: int, b: int)
    by (nonlinear_arith)
    requires
        in_i64(a),
        1 <= b <= i64::MAX,
    ensures
        -0x3fff_ffff_ffff_ffff_8000_0000_0000_0000 <= a * b
            <= 0x3fff_ffff_ffff_ffff_8000_0000_0000_0000,
{
}

/// The product of two positive integers is positive.
proof fn lemma_mul_pos(a: int, b: int)
    by (nonlinear_arith)
    requires
        a > 0,
        b > 0,
    ensures
        a * b > 0,
{
}

/// Rational equality is transitive across a well-formed middle value.
pub proof fn lemma_frac_eq_trans(a: Frac, b: Frac, c: Frac)
    requires
        frac_wf(a),
        frac_wf(b),
        frac_wf(c),
        frac_eq(a, b),
        frac_eq(b, c),
    ensures
        frac_eq(a, c),
{
    assert(a.num * c.den == c.num * a.den) by (nonlinear_arith)
        requires
            a.num * b.den == b.num * a.den,
            b.num * c.den == c.num * b.den,
            b.den > 0,
    ;
}

/// Sums of equal rationals are equal.
pub proof fn lemma_frac_add_congr(a: Frac, a2: Frac, b: Frac, b2: Frac)
    requires
        frac_wf(a),
        frac_wf(a2),
        frac_wf(b),
        frac_wf(b2),
        frac_eq(a, a2),
        frac_eq(b, b2),
    ensures
        frac_eq(frac_add(a, b), frac_add(a2, b2)),
{
    vstd::arithmetic::mul::lemma_mul_is_distributive_add_other_way(
        a2.den * b.den,
        a.num * b.den,
        b.num * a.den,
    );
    vstd::arithmetic::mul::lemma_mul_is_distributive_add_other_way(
        a.den * b.den,
        a2.num * b.den,
        b.num * a2.den,
    );
    assert((a.num * b.den) * (a2.den * b.den) == (a.num * a2.den) * (b.den * b.den))
        by (nonlinear_arith);
    assert((a2.num * b.den) * (a.den * b.den) == (a2.num * a.den) * (b.den * b.den))
        by (nonlinear_arith);
    assert((a.num * a2.den) * (b.den * b.den) == (a2.num * a.den) * (b.den * b.den));
    assert((b.num * a.den) * (a2.den * b.den) == (b.num * a2.den) * (a.den * b.den))
        by (nonlinear_arith);
    vstd::arithmetic::mul::lemma_mul_is_distributive_add_other_way(
        a2.den * b2.den,
        a2.num * b.den,
        b.num * a2.den,
    );
    vstd::arithmetic::mul::lemma_mul_is_distributive_add_other_way(
        a2.den * b.den,
        a2.num * b2.den,
        b2.num * a2.den,
    );
    assert((a2.num * b.den) * (a2.den * b2.den) == (a2.num * b2.den) * (a2.den * b.den))
        by (nonlinear_arith);
    assert((b.num * a2.den) * (a2.den * b2.den) == (b.num * b2.den) * (a2.den * a2.den))
        by (nonlinear_arith);
    assert((b.num * b2.den) * (a2.den * a2.den) == (b2.num * b.den) * (a2.den * a2.den));
    assert((b2.num * b.den) * (a2.den * a2.den) == (b2.num * a2.den) * (a2.den * b.den))
        by (nonlinear_arith);
    lemma_frac_add_wf(a, b);
    lemma_frac_add_wf(a2, b);
    lemma_frac_add_wf(a2, b2);
    lemma_frac_eq_trans(frac_add(a, b), frac_add(a2, b), frac_add(a2, b2));
}

/// The rational order is transitive across a well-formed middle value.
pub proof fn lemma_frac_le_trans(a: Frac, b: Frac, c: Frac)
    requires
        frac_wf(a),
        frac_wf(b),
        frac_wf(c),
        frac_le(a, b),
        frac_le(b, c),
    ensures
        frac_le(a, c),
{
    assert(a.num * c.den <= c.num * a.den) by (nonlinear_arith)
        requires
            a.num * b.den <= b.num * a.den,
            b.num * c.den <= c.num * b.den,
            a.den > 0,
            b.den > 0,
            c.den > 0,
    ;
}

/// Adding a nonnegative rational never decreases a value.
pub proof fn lemma_frac_le_add_nonneg(b: Frac, d: Frac)
    requires
        frac_wf(b),
        frac_wf(d),
        frac_le(frac_zero(), d),
    ensures
        frac_le(b, frac_add(b, d)),
{
    assert(b.num * (b.den * d.den) <= (b.num * d.den + d.num * b.den) * b.den)
        by (nonlinear_arith)
        requires
            d.num >= 0,
            b.den > 0,
            d.den > 0,
    ;
}

/// Products of equal rationals are equal.
pub proof fn lemma_frac_mul_congr(a: Frac, a2: Frac, b: Frac, b2: Frac)
    requires
        frac_wf(a),
        frac_wf(a2),
        frac_wf(b),
        frac_wf(b2),
        frac_eq(a, a2),
        frac_eq(b, b2),
    ensures
        frac_eq(frac_mul(a, b), frac_mul(a2, b2)),
{
    assert((a.num * b.num) * (a2.den * b2.den) == (a2.num * b2.num) * (a.den * b.den))
        by (nonlinear_arith)
        requires
            a.num * a2.den == a2.num * a.den,
            b.num * b2.den == b2.num * b.den,
    ;
}

/// The sum of well-formed rationals is well-formed.
pub proof fn lemma_frac_add_wf(a: Frac, b: Frac)
    requires
        frac_wf(a),
        frac_wf(b),
    ensures
        frac_wf(frac_add(a, b)),
{
    lemma_mul_pos(a.den, b.den);
}

/// The difference of well-formed rationals is well-formed.
pub proof fn lemma_frac_sub_wf(a: Frac, b: Frac)
    requires
        frac_wf(a),
        frac_wf(b),
    ensures
        frac_wf(frac_sub(a, b)),
{
    lemma_mul_pos(a.den, b.den);
}

/// The product of well-formed rationals is well-formed.
pub proof fn lemma_frac_mul_wf(a: Frac, b: Frac)
    requires
        frac_wf(a),
        frac_wf(b),
    ensures
        frac_wf(frac_mul(a, b)),
{
    lemma_mul_pos(a.den, b.den);
}

/// The quotient by a nonzero well-formed rational is well-formed.
pub proof fn lemma_frac_div_wf(a: Frac, b: Frac)
    requires
        frac_wf(a),
        frac_wf(b),
        b.num != 0,
    ensures
        frac_wf(frac_div(a, b)),
{
    if b.num >= 0 {
        lemma_mul_pos(a.den, b.num);
    } else {
        lemma_mul_pos(a.den, -b.num);
        assert(a.den * -b.num == -(a.den * b.num)) by (nonlinear_arith);
    }
}

/// An exact rational scalar: `num / den` with `den > 0`.
///
/// Operations never round: they return the exact value, or `None` when that
/// value's unreduced numerator or denominator leaves the 64-bit range.
#[derive(Clone, Copy, Debug)]
pub struct Rational {
    pub num: i64,
    pub den: i64,
}

impl View for Rational {
    type V = Frac;

    open spec fn view(&self) -> Frac {
        Frac { num: self.num as int, den: self.den as int }
    }
}

impl Rational {
    /// Well-formedness: the denominator is positive.
    pub open spec fn wf(self) -> bool {
        self.den > 0
    }

    /// Builds `num / den`.  A negative denominator is normalized away by
    /// negating both parts; a zero denominator is rejected.
    pub fn new(num: i64, den: i64) -> (r: Option<Rational>)
        ensures
            den == 0 ==> r is None,
            den > 0 ==> r == Some(Rational { num, den }),
            den < 0 ==> (r is Some <==> in_i64(-(num as int)) && in_i64(-(den as int))),
            den < 0 && r is Some ==> (r.unwrap()@ == Frac { num: -(num as int), den: -(den as int) }),
            r is Some ==> r.unwrap().wf() && frac_eq(r.unwrap()@, Frac { num: num as int, den: den as int }),
    {
        if den > 0 {
            Some(Rational { num, den })
        } else if den < 0 {
            let n: i128 = -(num as i128);
            let d: i128 = -(den as i128);
            let r = Self::from_wide(n, d);
            proof {
                assert((-(num as int)) * (den as int) == (num as int) * (-(den as int)))
                    by (nonlinear_arith);
            }
            r
        } else {
            None
        }
    }

    /// The rational with the given integer value.
    pub fn from_int(num: i64) -> (r: Rational)
        ensures
            r.wf(),
            r@ == (Frac { num: num as int, den: 1 }),
    {
        Rational { num, den: 1 }
    }

    /// The rational zero.
    pub fn zero() -> (r: Rational)
        ensures
            r.wf(),
            r@ == frac_zero(),
    {
        Rational { num: 0, den: 1 }
    }

    /// The numerator, for callers that need the exact representation.
    pub fn numerator(self) -> (n: i64)
        ensures
            n as int == self@.num,
    {
        self.num
    }

    /// The denominator, for callers that need the exact representation.
    pub fn denominator(self) -> (d: i64)
        ensures
            d as int == self@.den,
    {
        self.den
    }

    /// Narrows an exact wide result back to the stored representation.
    fn from_wide(n: i128, d: i128) -> (r: Option<Rational>)
        requires
            0 < d,
        ensures
            r is Some <==> frac_fits(Frac { num: n as int, den: d as int }),
            r is Some ==> r.unwrap().wf() && r.unwrap()@ == (Frac { num: n as int, den: d as int }),
    {
        if i64::MIN as i128 <= n && n <= i64::MAX as i128 && d <= i64::MAX as i128 {
            Some(Rational { num: n as i64, den: d as i64 })
        } else {
            None
        }
    }

    /// Exact sum, or `None` when it leaves the representable range.
    pub fn add(self, other: Rational) -> (r: Option<Rational>)
        requires
            self.wf(),
            other.wf(),
        ensures
            r is Some <==> frac_fits(frac_add(self@, other@)),
            r is Some ==> r.unwrap().wf() && r.unwrap()@ == frac_add(self@, other@),
    {
        proof {
            lemma_mul_by_den_range(self.num as int, other.den as int);
            lemma_mul_by_den_range(other.num as int, self.den as int);
            lemma_mul_i64_range(self.den as int, other.den as int);
            lemma_mul_pos(self.den as int, other.den as int);
        }
        let n: i128 = (self.num as i128) * (other.den as i128)
            + (other.num as i128) * (self.den as i128);
        let d: i128 = (self.den as i128) * (other.den as i128);
        Self::from_wide(n, d)
    }

    /// Exact difference, or `None` when it leaves the representable range.
    pub fn sub(self, other: Rational) -> (r: Option<Rational>)
        requires
            self.wf(),
            other.wf(),
        ensures
            r is Some <==> frac_fits(frac_sub(self@, other@)),
            r is Some ==> r.unwrap().wf() && r.unwrap()@ == frac_sub(self@, other@),
    {
        proof {
            lemma_mul_by_den_range(self.num as int, other.den as int);
            lemma_mul_by_den_range(other.num as int, self.den as int);
            lemma_mul_i64_range(self.den as int, other.den as int);
            lemma_mul_pos(self.den as int, other.den as int);
        }
        let n: i128 = (self.num as i128) * (other.den as i128)
            - (other.num as i128) * (self.den as i128);
        let d: i128 = (self.den as i128) * (other.den as i128);
        Self::from_wide(n, d)
    }

    /// Exact product, or `None` when it leaves the representable range.
    pub fn mul(self, other: Rational) -> (r: Option<Rational>)
        requires
            self.wf(),
            other.wf(),
        ensures
            r is Some <==> frac_fits(frac_mul(self@, other@)),
            r is Some ==> r.unwrap().wf() && r.unwrap()@ == frac_mul(self@, other@),
    {
        proof {
            lemma_mul_i64_range(self.num as int, other.num as int);
            lemma_mul_i64_range(self.den as int, other.den as int);
            lemma_mul_pos(self.den as int, other.den as int);
        }
        let n: i128 = (self.num as i128) * (other.num as i128);
        let d: i128 = (self.den as i128) * (other.den as i128);
        Self::from_wide(n, d)
    }

    /// Exact quotient by a nonzero rational, or `None` when it leaves the
    /// representable range.
    pub fn div(self, other: Rational) -> (r: Option<Rational>)
        requires
            self.wf(),
            other.wf(),
            other@.num != 0,
        ensures
            r is Some <==> frac_fits(frac_div(self@, other@)),
            r is Some ==> r.unwrap().wf() && r.unwrap()@ == frac_div(self@, other@),
    {
        proof {
            lemma_mul_i64_range(self.num as int, other.den as int);
            lemma_mul_i64_range(self.den as int, other.num as int);
            if other.num > 0 {
                lemma_mul_pos(self.den as int, other.num as int);
            } else {
                lemma_mul_pos(self.den as int, -(other.num as int));
            }
        }
        let n: i128 = (self.num as i128) * (other.den as i128);
        let d: i128 = (self.den as i128) * (other.num as i128);
        if other.num >= 0 {
            Self::from_wide(n, d)
        } else {
            assert(d == (self.den as int) * (other.num as int));
            assert((self.den as int) * -(other.num as int) == -((self.den as int) * (other.num as int)))
                by (nonlinear_arith);
            Self::from_wide(-n, -d)
        }
    }

    /// Exact comparison `self < other`.
    pub fn lt(self, other: Rational) -> (r: bool)
        requires
            self.wf(),
            other.wf(),
        ensures
            r == frac_lt(self@, other@),
    {
        proof {
            lemma_mul_i64_range(self.num as int, other.den as int);
            lemma_mul_i64_range(other.num as int, self.den as int);
        }
        (self.num as i128) * (other.den as i128) < (other.num as i128) * (self.den as i128)
    }

    /// Exact comparison `self <= other`.
    pub fn le(self, other: Rational) -> (r: bool)
        requires
            self.wf(),
            other.wf(),
        ensures
            r == frac_le(self@, other@),
    {
        proof {
            lemma_mul_i64_range(self.num as int, other.den as int);
            lemma_mul_i64_range(other.num as int, self.den as int);
        }
        (self.num as i128) * (other.den as i128) <= (other.num as i128) * (self.den as i128)
    }

    /// Exact equality of values (representations may differ).
    pub fn equals(self, other: Rational) -> (r: bool)
        requires
            self.wf(),
            other.wf(),
        ensures
            r == frac_eq(self@, other@),
    {
        proof {
            lemma_mul_i64_range(self.num as int, other.den as int);
            lemma_mul_i64_range(other.num as int, self.den as int);
        }
        (self.num as i128) * (other.den as i128) == (other.num as i128) * (self.den as i128)
    }
}

} // verus!
