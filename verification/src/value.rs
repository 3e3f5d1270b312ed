//! Exact amplitudes.
//!
//! A generated amplitude is `base + sum of scale_i * exp(arg_i)`: a rational
//! base plus a list of bump-kernel terms, each a rational multiple of the
//! exponential of a rational argument.  Holding the exponential symbolically
//! keeps every amplitude exact; turning one into a machine number is left to
//! unverified callers.

use vstd::prelude::*;

use crate::rational::{Frac, Rational, frac_add, frac_fits, frac_wf, frac_zero};

verus! {

/// One bump-kernel contribution: `scale * exp(arg)`.
#[derive(Clone, Copy, Debug)]
pub struct Term {
    pub scale: Rational,
    pub arg: Rational,
}

/// The mathematical value of a `Term`.
pub ghost struct TermRep {
    pub scale: Frac,
    pub arg: Frac,
}

impl View for Term {
    type V = TermRep;

    open spec fn view(&self) -> TermRep {
        TermRep { scale: self.scale@, arg: self.arg@ }
    }
}

/// The mathematical value of a `Value`: `base + sum of scale_i * exp(arg_i)`.
pub ghost struct Amp {
    pub base: Frac,
    pub terms: Seq<TermRep>,
}

pub open spec fn amp_wf(a: Amp) -> bool {
    &&& frac_wf(a.base)
    &&& forall|i: int|
        0 <= i < a.terms.len() ==> frac_wf(#[trigger] a.terms[i].scale) && frac_wf(a.terms[i].arg)
}

pub open spec fn amp_zero() -> Amp {
    Amp { base: frac_zero(), terms: Seq::empty() }
}

/// The sum of two amplitudes: bases add, term lists concatenate.
pub open spec fn amp_add(a: Amp, b: Amp) -> Amp {
    Amp { base: frac_add(a.base, b.base), terms: a.terms + b.terms }
}

/// Whether the sum of two amplitudes fits the representation: only the bases
/// are added, so only they can overflow.
pub open spec fn amp_add_fits(a: Amp, b: Amp) -> bool {
    frac_fits(frac_add(a.base, b.base))
}

/// An exact generated amplitude.
pub struct Value {
    pub base: Rational,
    pub terms: Vec<Term>,
}

impl View for Value {
    type V = Amp;

    open spec fn view(&self) -> Amp {
        Amp { base: self.base@, terms: self.terms@.map_values(|t: Term| t@) }
    }
}

impl Value {
    /// Well-formedness: the base and every term are well-formed rationals.
    pub open spec fn wf(self) -> bool {
        amp_wf(self@)
    }

    /// The amplitude zero: no contribution at all.
    pub fn zero() -> (r: Value)
        ensures
            r.wf(),
            r@ == amp_zero(),
    {
        let r = Value { base: Rational::zero(), terms: Vec::new() };
        proof {
            assert(r@.terms =~= Seq::<TermRep>::empty());
        }
        r
    }

    /// A purely rational amplitude.
    pub fn from_base(base: Rational) -> (r: Value)
        requires
            base.wf(),
        ensures
            r.wf(),
            r@ == (Amp { base: base@, terms: Seq::<TermRep>::empty() }),
    {
        let r = Value { base, terms: Vec::new() };
        proof {
            assert(r@.terms =~= Seq::<TermRep>::empty());
        }
        r
    }

    /// The base, exactly.
    pub fn get_base(&self) -> (r: Rational)
        ensures
            r@ == self@.base,
    {
        self.base
    }

    /// How many bump-kernel terms the amplitude carries.
    pub fn term_count(&self) -> (n: usize)
        ensures
            n == self@.terms.len(),
    {
        self.terms.len()
    }

    /// The `i`-th bump-kernel term, exactly.
    pub fn term(&self, i: usize) -> (t: Term)
        requires
            i < self@.terms.len(),
        ensures
            t@ == self@.terms[i as int],
    {
        self.terms[i]
    }

    /// Exact sum of two amplitudes, or `None` when the summed base leaves the
    /// representable range.
    pub fn add(&self, other: &Value) -> (r: Option<Value>)
        requires
            self.wf(),
            other.wf(),
        ensures
            r is Some <==> amp_add_fits(self@, other@),
            r is Some ==> r.unwrap().wf() && r.unwrap()@ == amp_add(self@, other@),
    {
        match self.base.add(other.base) {
            None => None,
            Some(base) => {
                let mut terms: Vec<Term> = Vec::new();
                let mut i: usize = 0;
                while i < self.terms.len()
                    invariant
                        i <= self.terms.len(),
                        terms@ == self.terms@.subrange(0, i as int),
                    decreases self.terms.len() - i,
                {
                    terms.push(self.terms[i]);
                    i = i + 1;
                    proof {
                        assert(terms@ =~= self.terms@.subrange(0, i as int));
                    }
                }
                proof {
                    assert(terms@ =~= self.terms@);
                }
                let mut j: usize = 0;
                while j < other.terms.len()
                    invariant
                        j <= other.terms.len(),
                        terms@ == self.terms@ + other.terms@.subrange(0, j as int),
                    decreases other.terms.len() - j,
                {
                    terms.push(other.terms[j]);
                    j = j + 1;
                    proof {
                        assert(terms@ =~= self.terms@ + other.terms@.subrange(0, j as int));
                    }
                }
                let r = Value { base, terms };
                proof {
                    assert(terms@ =~= self.terms@ + other.terms@);
                    assert(r@.terms =~= self@.terms + other@.terms);
                }
                Some(r)
            },
        }
    }
}

} // verus!
