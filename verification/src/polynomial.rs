//! The polynomial primitive.
//!
//! A `Polynomial` maps its local domain `[0, duration)` into an interval
//! `(lo, hi)` — forward, or mirrored when `reverse` is set — and evaluates the
//! power series `sum of coefficients[k] * t^k` at the mapped coordinate `t`.

use vstd::prelude::*;

use crate::mapping::{
    frac_in_domain, lemma_in_domain_duration_pos, lemma_mapped_mirror, lemma_mapped_wf,
    map_forward, map_reverse, mapped_forward, mapped_forward_fits, mapped_reverse,
    mapped_reverse_fits,
};
use crate::rational::{
    Frac, Rational, frac_add, frac_eq, frac_fits, frac_mul, frac_one, frac_sub, frac_wf,
    frac_zero, lemma_frac_add_congr, lemma_frac_add_wf, lemma_frac_mul_congr, lemma_frac_mul_wf,
};

verus! {

/// A polynomial segment over a mapped sub-interval.
pub struct Polynomial {
    /// Length of the local domain `[0, duration)`.
    pub duration: Rational,
    /// The interval the local domain is mapped into.
    pub interval: (Rational, Rational),
    /// `coefficients[k]` multiplies `t^k` at the mapped coordinate `t`.
    pub coefficients: Vec<Rational>,
    /// Mirror the mapping, so the output runs from `hi` down to `lo`.
    pub reverse: bool,
}

/// The state of the evaluation loop after some prefix of the coefficients:
/// the partial sum, the power of `t` to multiply the next coefficient, and
/// whether every step so far fit the representation.
pub ghost struct PolyFold {
    pub acc: Frac,
    pub pow: Frac,
    pub ok: bool,
}

/// Folds the coefficient prefix into a partial power series sum, mirroring
/// the evaluation loop step by step.
pub open spec fn poly_fold(coeffs: Seq<Rational>, t: Frac) -> PolyFold
    decreases coeffs.len(),
{
    if coeffs.len() == 0 {
        PolyFold { acc: frac_zero(), pow: frac_one(), ok: true }
    } else {
        let prev = poly_fold(coeffs.drop_last(), t);
        let term = frac_mul(coeffs.last()@, prev.pow);
        PolyFold {
            acc: frac_add(prev.acc, term),
            pow: frac_mul(prev.pow, t),
            ok: prev.ok && frac_fits(term) && frac_fits(frac_add(prev.acc, term)) && frac_fits(
                frac_mul(prev.pow, t),
            ),
        }
    }
}

/// `t^k` as an exact rational, associated as the evaluation loop builds it.
pub open spec fn frac_pow(t: Frac, k: nat) -> Frac
    decreases k,
{
    if k == 0 {
        frac_one()
    } else {
        frac_mul(frac_pow(t, (k - 1) as nat), t)
    }
}

/// The power series `sum of coeffs[k] * t^k`, added in index order.
pub open spec fn poly_sum(coeffs: Seq<Rational>, t: Frac) -> Frac
    decreases coeffs.len(),
{
    if coeffs.len() == 0 {
        frac_zero()
    } else {
        frac_add(
            poly_sum(coeffs.drop_last(), t),
            frac_mul(coeffs.last()@, frac_pow(t, (coeffs.len() - 1) as nat)),
        )
    }
}

/// The mapped coordinate a polynomial evaluates its power series at.
pub open spec fn poly_mapped(p: Polynomial, x: Frac) -> Frac {
    if p.reverse {
        mapped_reverse(p.duration@, p.interval.0@, p.interval.1@, x)
    } else {
        mapped_forward(p.duration@, p.interval.0@, p.interval.1@, x)
    }
}

/// The exact value a polynomial produces at an in-domain point.
pub open spec fn poly_value(p: Polynomial, x: Frac) -> Frac {
    poly_fold(p.coefficients@, poly_mapped(p, x)).acc
}

/// Whether every step of the evaluation fits the representation.  An empty
/// coefficient list computes nothing, not even the mapping, so it always
/// fits.
pub open spec fn poly_fits(p: Polynomial, x: Frac) -> bool {
    &&& p.coefficients@.len() > 0 ==> (if p.reverse {
        mapped_reverse_fits(p.duration@, p.interval.0@, p.interval.1@, x)
    } else {
        mapped_forward_fits(p.duration@, p.interval.0@, p.interval.1@, x)
    })
    &&& poly_fold(p.coefficients@, poly_mapped(p, x)).ok
}

/// A step that fit for the whole coefficient list fit for every prefix.
pub proof fn lemma_poly_fold_prefix(coeffs: Seq<Rational>, t: Frac, i: int)
    requires
        0 <= i <= coeffs.len(),
    ensures
        poly_fold(coeffs, t).ok ==> poly_fold(coeffs.take(i), t).ok,
    decreases coeffs.len(),
{
    if i == coeffs.len() {
        assert(coeffs.take(i) =~= coeffs);
    } else {
        lemma_poly_fold_prefix(coeffs.drop_last(), t, i);
        assert(coeffs.drop_last().take(i) =~= coeffs.take(i));
    }
}

/// The evaluation fold computes exactly the power series sum, and its power
/// register is exactly `t` raised to the number of steps taken.
pub proof fn lemma_poly_fold_is_sum(coeffs: Seq<Rational>, t: Frac)
    ensures
        poly_fold(coeffs, t).acc == poly_sum(coeffs, t),
        poly_fold(coeffs, t).pow == frac_pow(t, coeffs.len()),
    decreases coeffs.len(),
{
    if coeffs.len() != 0 {
        lemma_poly_fold_is_sum(coeffs.drop_last(), t);
    }
}

/// A polynomial's generated value is the power series of its coefficients at
/// the mapped coordinate.
pub proof fn lemma_polynomial_power_series(p: Polynomial, x: Frac)
    ensures
        poly_value(p, x) == poly_sum(p.coefficients@, poly_mapped(p, x)),
{
    lemma_poly_fold_is_sum(p.coefficients@, poly_mapped(p, x));
}

/// Powers of equal coordinates are equal, and powers of a well-formed
/// coordinate are well-formed.
proof fn lemma_frac_pow_congr(t: Frac, t2: Frac, k: nat)
    requires
        frac_wf(t),
        frac_wf(t2),
        frac_eq(t, t2),
    ensures
        frac_wf(frac_pow(t, k)),
        frac_wf(frac_pow(t2, k)),
        frac_eq(frac_pow(t, k), frac_pow(t2, k)),
    decreases k,
{
    if k != 0 {
        lemma_frac_pow_congr(t, t2, (k - 1) as nat);
        lemma_frac_mul_congr(frac_pow(t, (k - 1) as nat), frac_pow(t2, (k - 1) as nat), t, t2);
        lemma_frac_mul_wf(frac_pow(t, (k - 1) as nat), t);
        lemma_frac_mul_wf(frac_pow(t2, (k - 1) as nat), t2);
    }
}

/// The power series takes equal values at equal coordinates, and its value
/// at a well-formed coordinate is well-formed.
proof fn lemma_poly_sum_congr(coeffs: Seq<Rational>, t: Frac, t2: Frac)
    requires
        frac_wf(t),
        frac_wf(t2),
        frac_eq(t, t2),
        forall|i: int| 0 <= i < coeffs.len() ==> (#[trigger] coeffs[i]).wf(),
    ensures
        frac_wf(poly_sum(coeffs, t)),
        frac_wf(poly_sum(coeffs, t2)),
        frac_eq(poly_sum(coeffs, t), poly_sum(coeffs, t2)),
    decreases coeffs.len(),
{
    if coeffs.len() != 0 {
        let k = (coeffs.len() - 1) as nat;
        let c = coeffs.last()@;
        assert(coeffs.last().wf());
        lemma_poly_sum_congr(coeffs.drop_last(), t, t2);
        lemma_frac_pow_congr(t, t2, k);
        lemma_frac_mul_congr(c, c, frac_pow(t, k), frac_pow(t2, k));
        lemma_frac_mul_wf(c, frac_pow(t, k));
        lemma_frac_mul_wf(c, frac_pow(t2, k));
        lemma_frac_add_congr(
            poly_sum(coeffs.drop_last(), t),
            poly_sum(coeffs.drop_last(), t2),
            frac_mul(c, frac_pow(t, k)),
            frac_mul(c, frac_pow(t2, k)),
        );
        lemma_frac_add_wf(poly_sum(coeffs.drop_last(), t), frac_mul(c, frac_pow(t, k)));
        lemma_frac_add_wf(poly_sum(coeffs.drop_last(), t2), frac_mul(c, frac_pow(t2, k)));
    }
}

/// Mirroring law: a reversed polynomial takes, at `x`, exactly the value the
/// unreversed polynomial with the same parameters takes at `duration - x`.
pub proof fn lemma_polynomial_reverse_mirror(p: Polynomial, q: Polynomial, x: Frac)
    requires
        p.wf(),
        q.wf(),
        frac_wf(x),
        p.reverse,
        !q.reverse,
        p.duration == q.duration,
        p.interval == q.interval,
        p.coefficients@ == q.coefficients@,
        p.duration@.num > 0,
    ensures
        frac_eq(poly_value(p, x), poly_value(q, frac_sub(p.duration@, x))),
{
    let d = p.duration@;
    let lo = p.interval.0@;
    let hi = p.interval.1@;
    let tp = mapped_reverse(d, lo, hi, x);
    let tq = mapped_forward(d, lo, hi, frac_sub(d, x));
    lemma_mapped_mirror(d, lo, hi, x);
    lemma_mapped_wf(d, lo, hi, x);
    crate::rational::lemma_frac_sub_wf(d, x);
    lemma_mapped_wf(d, lo, hi, frac_sub(d, x));
    lemma_poly_sum_congr(p.coefficients@, tp, tq);
    lemma_poly_fold_is_sum(p.coefficients@, tp);
    lemma_poly_fold_is_sum(q.coefficients@, tq);
}

impl Polynomial {
    /// Well-formedness: every stored rational has a positive denominator.
    pub open spec fn wf(self) -> bool {
        &&& self.duration.wf()
        &&& self.interval.0.wf()
        &&& self.interval.1.wf()
        &&& forall|i: int|
            0 <= i < self.coefficients@.len() ==> (#[trigger] self.coefficients@[i]).wf()
    }

    /// Builds a polynomial segment; parameters are accepted as given, even a
    /// non-positive duration (which makes the segment dead weight) or an
    /// empty coefficient list (which makes it constant zero).
    pub fn new(
        duration: Rational,
        interval: (Rational, Rational),
        coefficients: Vec<Rational>,
        reverse: bool,
    ) -> (r: Polynomial)
        ensures
            r == (Polynomial { duration, interval, coefficients, reverse }),
    {
        Polynomial { duration, interval, coefficients, reverse }
    }

    /// The length of the local domain.
    pub fn get_duration(&self) -> (d: Rational)
        ensures
            d == self.duration,
    {
        self.duration
    }

    /// Evaluates the polynomial at local coordinate `x`.
    ///
    /// Returns `None` when `x` is outside `[0, duration)`, and otherwise the
    /// exact power series value at the mapped coordinate — unless a step of
    /// the exact arithmetic leaves the representable range, which also
    /// returns `None`.  An empty coefficient list yields the constant zero
    /// without touching the mapping.
    pub fn generate(&self, x: Rational) -> (r: Option<Rational>)
        requires
            self.wf(),
            x.wf(),
        ensures
            r is Some <==> frac_in_domain(x@, self.duration@) && poly_fits(*self, x@),
            r is Some ==> r.unwrap().wf() && r.unwrap()@ == poly_value(*self, x@),
    {
        let zero = Rational::zero();
        if !(zero.le(x) && x.lt(self.duration)) {
            return None;
        }
        if self.coefficients.len() == 0 {
            return Some(Rational::zero());
        }
        proof {
            lemma_in_domain_duration_pos(x@, self.duration@);
        }
        let t_opt = if self.reverse {
            map_reverse(self.duration, self.interval.0, self.interval.1, x)
        } else {
            map_forward(self.duration, self.interval.0, self.interval.1, x)
        };
        let t = match t_opt {
            Some(v) => v,
            None => {
                return None;
            },
        };
        let ghost coeffs = self.coefficients@;
        let mut acc = Rational::zero();
        let mut pow = Rational::from_int(1);
        let mut i: usize = 0;
        while i < self.coefficients.len()
            invariant
                self.wf(),
                t.wf(),
                acc.wf(),
                pow.wf(),
                coeffs == self.coefficients@,
                t@ == poly_mapped(*self, x@),
                i <= coeffs.len(),
                poly_fold(coeffs.take(i as int), t@).ok,
                acc@ == poly_fold(coeffs.take(i as int), t@).acc,
                pow@ == poly_fold(coeffs.take(i as int), t@).pow,
            decreases coeffs.len() - i,
        {
            let c = self.coefficients[i];
            proof {
                assert(coeffs.take(i + 1).drop_last() =~= coeffs.take(i as int));
                assert(coeffs.take(i + 1).last() == coeffs[i as int]);
            }
            let term = match c.mul(pow) {
                Some(v) => v,
                None => {
                    proof {
                        lemma_poly_fold_prefix(coeffs, t@, i + 1);
                    }
                    return None;
                },
            };
            let next_acc = match acc.add(term) {
                Some(v) => v,
                None => {
                    proof {
                        lemma_poly_fold_prefix(coeffs, t@, i + 1);
                    }
                    return None;
                },
            };
            let next_pow = match pow.mul(t) {
                Some(v) => v,
                None => {
                    proof {
                        lemma_poly_fold_prefix(coeffs, t@, i + 1);
                    }
                    return None;
                },
            };
            acc = next_acc;
            pow = next_pow;
            i = i + 1;
        }
        proof {
            assert(coeffs.take(coeffs.len() as int) =~= coeffs);
        }
        Some(acc)
    }
}

} // verus!
