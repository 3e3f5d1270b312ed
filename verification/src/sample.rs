//! Sampling a function tree at a fixed rate.
//!
//! Walking a tree's validity interval at `rate` samples per unit produces
//! `floor((stop - start) * rate)` records at times `start + i / rate`.  This
//! is the computational half of exporting; serializing the records is the
//! caller's business.

use vstd::prelude::*;

use crate::function::{Function, in_limits, tree_gen};
use crate::rational::{Frac, Rational, frac_add, frac_div, frac_fits, frac_mul, frac_sub};
use crate::value::Value;

verus! {

/// One exported record: the sample time and the exact amplitude there.
pub struct Sample {
    pub time: Rational,
    pub amplitude: Value,
}

/// The length of the tree's validity interval.
pub open spec fn sample_span(f: Function) -> Frac {
    frac_sub(f.limits.1@, f.limits.0@)
}

/// How many samples fit in the validity interval: `floor(span * rate)`,
/// never negative.
pub open spec fn sample_count(f: Function, rate: Frac) -> int {
    let prod = frac_mul(sample_span(f), rate);
    if prod.num < 0 {
        0
    } else {
        prod.num / prod.den
    }
}

/// The `i`-th sample time, `start + i / rate`.
pub open spec fn sample_time(f: Function, rate: Frac, i: int) -> Frac {
    frac_add(f.limits.0@, frac_div(Frac { num: i, den: 1 }, rate))
}

/// Whether the `i`-th sample can be produced: its time fits the
/// representation, lies within the tree's limits, and the tree's evaluation
/// there fits as well.
pub open spec fn sample_step_ok(f: Function, rate: Frac, i: int) -> bool {
    let q = frac_div(Frac { num: i, den: 1 }, rate);
    let t = frac_add(f.limits.0@, q);
    &&& frac_fits(q)
    &&& frac_fits(t)
    &&& in_limits(f, t)
    &&& tree_gen(f, t).ok
}

/// Whether the first `k` samples can all be produced.
pub open spec fn sample_ok(f: Function, rate: Frac, k: int) -> bool
    decreases k,
{
    if k <= 0 {
        true
    } else {
        sample_ok(f, rate, k - 1) && sample_step_ok(f, rate, k - 1)
    }
}

/// Samples that can all be produced include every shorter run.
proof fn lemma_sample_ok_prefix(f: Function, rate: Frac, i: int, k: int)
    requires
        0 <= i <= k,
    ensures
        sample_ok(f, rate, k) ==> sample_ok(f, rate, i),
    decreases k,
{
    if i < k {
        lemma_sample_ok_prefix(f, rate, i, k - 1);
    }
}

/// Samples the tree across its whole validity interval.
///
/// Returns one record per sample slot, each with the exact amplitude the
/// tree generates at its time — or `None` when a step of the exact
/// arithmetic leaves the representable range, or a sample time escapes the
/// tree's limits.
pub fn sample(fcn: &Function, rate: Rational) -> (r: Option<Vec<Sample>>)
    requires
        fcn.wf(),
        rate.wf(),
    ensures
        r is Some <==> frac_fits(sample_span(*fcn)) && frac_fits(
            frac_mul(sample_span(*fcn), rate@),
        ) && sample_ok(*fcn, rate@, sample_count(*fcn, rate@)),
        r is Some ==> {
            &&& r.unwrap()@.len() == sample_count(*fcn, rate@)
            &&& forall|i: int|
                0 <= i < r.unwrap()@.len() ==> {
                    &&& (#[trigger] r.unwrap()@[i]).time@ == sample_time(*fcn, rate@, i)
                    &&& r.unwrap()@[i].amplitude@ == tree_gen(
                        *fcn,
                        sample_time(*fcn, rate@, i),
                    ).acc
                }
        },
{
    let lim = fcn.get_limits();
    let span = match lim.1.sub(lim.0) {
        Some(v) => v,
        None => {
            return None;
        },
    };
    let prod = match span.mul(rate) {
        Some(v) => v,
        None => {
            return None;
        },
    };
    let n: i64 = if prod.num < 0 {
        0
    } else {
        prod.num / prod.den
    };
    let ghost count = sample_count(*fcn, rate@);
    proof {
        assert(n as int == count);
    }
    let mut out: Vec<Sample> = Vec::new();
    let mut i: i64 = 0;
    while i < n
        invariant
            fcn.wf(),
            rate.wf(),
            lim == fcn.limits,
            lim.0.wf(),
            lim.1.wf(),
            0 <= i <= n,
            n as int == count,
            count == sample_count(*fcn, rate@),
            frac_fits(sample_span(*fcn)),
            frac_fits(frac_mul(sample_span(*fcn), rate@)),
            out@.len() == i as int,
            sample_ok(*fcn, rate@, i as int),
            forall|k: int|
                0 <= k < i as int ==> {
                    &&& (#[trigger] out@[k]).time@ == sample_time(*fcn, rate@, k)
                    &&& out@[k].amplitude@ == tree_gen(*fcn, sample_time(*fcn, rate@, k)).acc
                },
        decreases n - i,
    {
        proof {
            if rate@.num == 0 {
                let sp = sample_span(*fcn);
                assert(sp.num * rate@.num == 0 && sp.den * rate@.den > 0) by (nonlinear_arith)
                    requires
                        rate@.num == 0,
                        sp.den == fcn.limits.1@.den * fcn.limits.0@.den,
                        fcn.limits.0@.den > 0,
                        fcn.limits.1@.den > 0,
                        rate@.den > 0,
                ;
                vstd::arithmetic::div_mod::lemma_div_basics(sp.den * rate@.den);
                assert(false);
            }
        }
        let q = match Rational::from_int(i).div(rate) {
            Some(v) => v,
            None => {
                proof {
                    lemma_sample_ok_prefix(*fcn, rate@, i as int + 1, count);
                }
                return None;
            },
        };
        let t = match lim.0.add(q) {
            Some(v) => v,
            None => {
                proof {
                    lemma_sample_ok_prefix(*fcn, rate@, i as int + 1, count);
                }
                return None;
            },
        };
        let v = match fcn.generate(t) {
            Some(v) => v,
            None => {
                proof {
                    lemma_sample_ok_prefix(*fcn, rate@, i as int + 1, count);
                }
                return None;
            },
        };
        out.push(Sample { time: t, amplitude: v });
        i = i + 1;
    }
    Some(out)
}

} // verus!
