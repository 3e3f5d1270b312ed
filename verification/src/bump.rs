//! The bump-kernel primitive.
//!
//! A `Bump` maps its local domain `[0, duration)` forward into an interval
//! `(lo, hi)`.  Where the mapped coordinate `t` lies in the open kernel
//! support `(-1, 1)` the value is `scale * exp(t^2 / (t^2 - 1)) + offset`,
//! held exactly as an offset base plus one symbolic exponential term.  Where
//! `t` falls outside the support — while `x` is still in the local domain —
//! the value is exactly `offset`, the kernel's boundary limit, so the seam
//! stays continuous.

use vstd::prelude::*;

use crate::mapping::{
    frac_in_domain, lemma_in_domain_duration_pos, map_forward, mapped_forward,
    mapped_forward_fits,
};
use crate::rational::{
    Frac, Rational, frac_div, frac_fits, frac_lt, frac_mul, frac_one, frac_sub, frac_wf,
};
use crate::value::{Amp, Term, TermRep, Value};

verus! {

/// A bump-kernel segment over a mapped sub-interval.
pub struct Bump {
    /// Length of the local domain `[0, duration)`.
    pub duration: Rational,
    /// The interval the local domain is mapped into.
    pub interval: (Rational, Rational),
    /// Multiplies the kernel before the offset is added.
    pub scale: Rational,
    /// Added to the scaled kernel; also the value outside the support.
    pub offset: Rational,
}

/// Minus one, the lower end of the kernel support.
pub open spec fn frac_neg_one() -> Frac {
    Frac { num: -1, den: 1 }
}

/// Whether a mapped coordinate lies in the open kernel support `(-1, 1)`.
pub open spec fn in_kernel(t: Frac) -> bool {
    frac_lt(frac_neg_one(), t) && frac_lt(t, frac_one())
}

/// The kernel's exponent `t^2 / (t^2 - 1)`.
pub open spec fn bump_arg(t: Frac) -> Frac {
    let t2 = frac_mul(t, t);
    frac_div(t2, frac_sub(t2, frac_one()))
}

/// The mapped coordinate a bump evaluates its kernel at.
pub open spec fn bump_mapped(b: Bump, x: Frac) -> Frac {
    mapped_forward(b.duration@, b.interval.0@, b.interval.1@, x)
}

/// The exact amplitude a bump produces at an in-domain point: inside the
/// support, `offset` plus the symbolic term `scale * exp(bump_arg(t))`;
/// outside it, exactly `offset`.
pub open spec fn bump_value(b: Bump, x: Frac) -> Amp {
    let t = bump_mapped(b, x);
    if in_kernel(t) {
        Amp { base: b.offset@, terms: seq![TermRep { scale: b.scale@, arg: bump_arg(t) }] }
    } else {
        Amp { base: b.offset@, terms: Seq::empty() }
    }
}

/// Whether every step of the evaluation fits the representation.
pub open spec fn bump_fits(b: Bump, x: Frac) -> bool {
    let t = bump_mapped(b, x);
    &&& mapped_forward_fits(b.duration@, b.interval.0@, b.interval.1@, x)
    &&& (in_kernel(t) ==> {
        let t2 = frac_mul(t, t);
        let dsr = frac_sub(t2, frac_one());
        frac_fits(t2) && frac_fits(dsr) && frac_fits(frac_div(t2, dsr))
    })
}

/// Inside the support, `t^2 - 1` is strictly negative, so the kernel's
/// denominator cannot vanish.
proof fn lemma_kernel_denominator(t: Frac)
    requires
        frac_wf(t),
        in_kernel(t),
    ensures
        frac_sub(frac_mul(t, t), frac_one()).num < 0,
{
    assert(-t.den < t.num && t.num < t.den);
    assert(t.num * t.num < t.den * t.den) by (nonlinear_arith)
        requires
            t.den > 0,
            -t.den < t.num < t.den,
    ;
}

impl Bump {
    /// Well-formedness: every stored rational has a positive denominator.
    pub open spec fn wf(self) -> bool {
        &&& self.duration.wf()
        &&& self.interval.0.wf()
        &&& self.interval.1.wf()
        &&& self.scale.wf()
        &&& self.offset.wf()
    }

    /// Builds a bump segment; parameters are accepted as given, even a
    /// non-positive duration, which makes the segment dead weight.
    pub fn new(
        duration: Rational,
        interval: (Rational, Rational),
        scale: Rational,
        offset: Rational,
    ) -> (r: Bump)
        ensures
            r == (Bump { duration, interval, scale, offset }),
    {
        Bump { duration, interval, scale, offset }
    }

    /// The length of the local domain.
    pub fn get_duration(&self) -> (d: Rational)
        ensures
            d == self.duration,
    {
        self.duration
    }

    /// Evaluates the bump at local coordinate `x`.
    ///
    /// Returns `None` only when `x` is outside `[0, duration)` — or when a
    /// step of the exact arithmetic leaves the representable range.
    pub fn generate(&self, x: Rational) -> (r: Option<Value>)
        requires
            self.wf(),
            x.wf(),
        ensures
            r is Some <==> frac_in_domain(x@, self.duration@) && bump_fits(*self, x@),
            r is Some ==> r.unwrap().wf() && r.unwrap()@ == bump_value(*self, x@),
    {
        let zero = Rational::zero();
        if !(zero.le(x) && x.lt(self.duration)) {
            return None;
        }
        proof {
            lemma_in_domain_duration_pos(x@, self.duration@);
        }
        let t = match map_forward(self.duration, self.interval.0, self.interval.1, x) {
            Some(v) => v,
            None => {
                return None;
            },
        };
        let neg_one = Rational::from_int(-1);
        let one = Rational::from_int(1);
        if neg_one.lt(t) && t.lt(one) {
            let t2 = match t.mul(t) {
                Some(v) => v,
                None => {
                    return None;
                },
            };
            let dsr = match t2.sub(one) {
                Some(v) => v,
                None => {
                    return None;
                },
            };
            proof {
                lemma_kernel_denominator(t@);
            }
            let q = match t2.div(dsr) {
                Some(v) => v,
                None => {
                    return None;
                },
            };
            let mut terms: Vec<Term> = Vec::new();
            terms.push(Term { scale: self.scale, arg: q });
            let r = Value { base: self.offset, terms };
            proof {
                assert(r@.terms =~= seq![TermRep { scale: self.scale@, arg: bump_arg(t@) }]);
            }
            Some(r)
        } else {
            Some(Value::from_base(self.offset))
        }
    }
}

} // verus!
