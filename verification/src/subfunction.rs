//! The common shape of all primitive segments.
//!
//! A segment reports the length of its local domain `[0, duration)` and
//! produces an exact amplitude for any point of it.  The two primitive kinds
//! form a closed variant dispatched through this one interface.

use vstd::prelude::*;

use crate::bump::{Bump, bump_fits, bump_value};
use crate::mapping::frac_in_domain;
use crate::polynomial::{Polynomial, poly_fits, poly_value};
use crate::rational::{Frac, Rational};
use crate::value::{Amp, TermRep, Value};

verus! {

/// A primitive segment: a polynomial or a bump kernel.
pub enum Subfunction {
    Polynomial(Polynomial),
    Bump(Bump),
}

/// The length of a segment's local domain.
pub open spec fn sub_duration(s: Subfunction) -> Frac {
    match s {
        Subfunction::Polynomial(p) => p.duration@,
        Subfunction::Bump(b) => b.duration@,
    }
}

/// The exact amplitude a segment produces at an in-domain point.
pub open spec fn sub_value(s: Subfunction, x: Frac) -> Amp {
    match s {
        Subfunction::Polynomial(p) => Amp {
            base: poly_value(p, x),
            terms: Seq::<TermRep>::empty(),
        },
        Subfunction::Bump(b) => bump_value(b, x),
    }
}

/// Whether every step of a segment's evaluation fits the representation.
pub open spec fn sub_fits(s: Subfunction, x: Frac) -> bool {
    match s {
        Subfunction::Polynomial(p) => poly_fits(p, x),
        Subfunction::Bump(b) => bump_fits(b, x),
    }
}

impl Subfunction {
    /// Well-formedness of the wrapped primitive.
    pub open spec fn wf(self) -> bool {
        match self {
            Subfunction::Polynomial(p) => p.wf(),
            Subfunction::Bump(b) => b.wf(),
        }
    }

    /// The length of the local domain.
    pub fn get_duration(&self) -> (d: Rational)
        requires
            self.wf(),
        ensures
            d.wf(),
            d@ == sub_duration(*self),
    {
        match self {
            Subfunction::Polynomial(p) => p.get_duration(),
            Subfunction::Bump(b) => b.get_duration(),
        }
    }

    /// Evaluates the segment at local coordinate `x`.
    ///
    /// Returns `None` when `x` is outside `[0, duration)` — or when a step of
    /// the exact arithmetic leaves the representable range.
    pub fn generate(&self, x: Rational) -> (r: Option<Value>)
        requires
            self.wf(),
            x.wf(),
        ensures
            r is Some <==> frac_in_domain(x@, sub_duration(*self)) && sub_fits(*self, x@),
            r is Some ==> r.unwrap().wf() && r.unwrap()@ == sub_value(*self, x@),
    {
        match self {
            Subfunction::Polynomial(p) => match p.generate(x) {
                Some(v) => Some(Value::from_base(v)),
                None => None,
            },
            Subfunction::Bump(b) => b.generate(x),
        }
    }
}

} // verus!
