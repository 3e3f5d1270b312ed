//! Construction of primitive segments from plain parameters.

use vstd::prelude::*;

use crate::bump::Bump;
use crate::polynomial::Polynomial;
use crate::rational::Rational;
use crate::subfunction::Subfunction;

verus! {

/// Builds primitive segments ready to be added to a `Function`.
pub struct Factory;

impl Factory {
    /// A polynomial segment over `[0, dur)` mapped into `interval`, with
    /// `coeff[k]` the coefficient of the `k`-th power.
    pub fn polynomial(
        &self,
        dur: Rational,
        interval: (Rational, Rational),
        coeff: Vec<Rational>,
        reverse: bool,
    ) -> (r: Subfunction)
        ensures
            r == Subfunction::Polynomial(
                Polynomial { duration: dur, interval, coefficients: coeff, reverse },
            ),
    {
        Subfunction::Polynomial(Polynomial::new(dur, interval, coeff, reverse))
    }

    /// A bump segment over `[0, dur)` mapped into `interval`, scaled and
    /// offset on the value axis.
    pub fn bump(
        &self,
        dur: Rational,
        interval: (Rational, Rational),
        scale: Rational,
        offset: Rational,
    ) -> (r: Subfunction)
        ensures
            r == Subfunction::Bump(Bump { duration: dur, interval, scale, offset }),
    {
        Subfunction::Bump(Bump::new(dur, interval, scale, offset))
    }
}

} // verus!
