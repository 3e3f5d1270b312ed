//! The sub-domain mapping shared by all primitives.
//!
//! A primitive is valid on `[0, duration)` of its local axis.  An input `x`
//! in that range is normalized to `u = x / duration` and mapped into the
//! primitive's interval `(lo, hi)`: forward as `lo + u * (hi - lo)`, reversed
//! as `hi - u * (hi - lo)`.

use vstd::prelude::*;

use crate::rational::{
    Frac, Rational, frac_add, frac_div, frac_eq, frac_fits, frac_le, frac_lt, frac_mul, frac_one,
    frac_sub, frac_wf, frac_zero, lemma_frac_add_congr, lemma_frac_add_wf, lemma_frac_div_wf,
    lemma_frac_mul_congr, lemma_frac_mul_wf, lemma_frac_sub_wf,
};

verus! {

/// Whether `x` lies in the half-open local domain `[0, duration)`.
pub open spec fn frac_in_domain(x: Frac, duration: Frac) -> bool {
    frac_le(frac_zero(), x) && frac_lt(x, duration)
}

/// The forward mapping `lo + (x / duration) * (hi - lo)`, with the sum
/// ordered as it is computed.
pub open spec fn mapped_forward(duration: Frac, lo: Frac, hi: Frac, x: Frac) -> Frac {
    frac_add(frac_mul(frac_div(x, duration), frac_sub(hi, lo)), lo)
}

/// The reversed mapping `hi - (x / duration) * (hi - lo)`.
pub open spec fn mapped_reverse(duration: Frac, lo: Frac, hi: Frac, x: Frac) -> Frac {
    frac_sub(hi, frac_mul(frac_div(x, duration), frac_sub(hi, lo)))
}

/// Whether every step of the forward mapping fits the representation.
pub open spec fn mapped_forward_fits(duration: Frac, lo: Frac, hi: Frac, x: Frac) -> bool {
    let u = frac_div(x, duration);
    let span = frac_sub(hi, lo);
    &&& frac_fits(u)
    &&& frac_fits(span)
    &&& frac_fits(frac_mul(u, span))
    &&& frac_fits(frac_add(frac_mul(u, span), lo))
}

/// Whether every step of the reversed mapping fits the representation.
pub open spec fn mapped_reverse_fits(duration: Frac, lo: Frac, hi: Frac, x: Frac) -> bool {
    let u = frac_div(x, duration);
    let span = frac_sub(hi, lo);
    &&& frac_fits(u)
    &&& frac_fits(span)
    &&& frac_fits(frac_mul(u, span))
    &&& frac_fits(frac_sub(hi, frac_mul(u, span)))
}

/// A well-formed point of the half-open domain `[0, duration)` forces the
/// duration to be positive; in particular it is nonzero and can divide.
pub proof fn lemma_in_domain_duration_pos(x: Frac, duration: Frac)
    requires
        x.den > 0,
        duration.den > 0,
        frac_in_domain(x, duration),
    ensures
        duration.num > 0,
{
    assert(0 <= x.num);
    assert(x.num * duration.den < duration.num * x.den);
    assert(x.num * duration.den >= 0) by (nonlinear_arith)
        requires
            x.num >= 0,
            duration.den > 0,
    ;
    assert(duration.num * x.den > 0);
    assert(duration.num > 0) by (nonlinear_arith)
        requires
            duration.num * x.den > 0,
            x.den > 0,
    ;
}

/// Both mappings produce well-formed rationals from well-formed parts when
/// the duration is positive.
pub proof fn lemma_mapped_wf(duration: Frac, lo: Frac, hi: Frac, x: Frac)
    requires
        frac_wf(duration),
        frac_wf(lo),
        frac_wf(hi),
        frac_wf(x),
        duration.num > 0,
    ensures
        frac_wf(mapped_forward(duration, lo, hi, x)),
        frac_wf(mapped_reverse(duration, lo, hi, x)),
{
    let u = frac_div(x, duration);
    let span = frac_sub(hi, lo);
    lemma_frac_div_wf(x, duration);
    lemma_frac_sub_wf(hi, lo);
    lemma_frac_mul_wf(u, span);
    lemma_frac_add_wf(frac_mul(u, span), lo);
    lemma_frac_sub_wf(hi, frac_mul(u, span));
}

/// Mirroring: the reversed mapping at `x` hits the same coordinate as the
/// forward mapping at `duration - x`.
pub proof fn lemma_mapped_mirror(duration: Frac, lo: Frac, hi: Frac, x: Frac)
    requires
        frac_wf(duration),
        frac_wf(lo),
        frac_wf(hi),
        frac_wf(x),
        duration.num > 0,
    ensures
        frac_eq(
            mapped_reverse(duration, lo, hi, x),
            mapped_forward(duration, lo, hi, frac_sub(duration, x)),
        ),
{
    let u = frac_div(x, duration);
    let u2 = frac_div(frac_sub(duration, x), duration);
    let m = frac_sub(frac_one(), u);
    let span = frac_sub(hi, lo);
    lemma_frac_div_wf(x, duration);
    lemma_frac_sub_wf(duration, x);
    lemma_frac_div_wf(frac_sub(duration, x), duration);
    lemma_frac_sub_wf(frac_one(), u);
    lemma_frac_sub_wf(hi, lo);
    lemma_frac_mul_wf(u2, span);
    lemma_frac_mul_wf(m, span);
    lemma_frac_add_wf(frac_mul(u2, span), lo);
    lemma_frac_add_wf(frac_mul(m, span), lo);
    assert(frac_eq(u2, m)) by (nonlinear_arith)
        requires
            u2 == (Frac {
                num: (duration.num * x.den - x.num * duration.den) * duration.den,
                den: (duration.den * x.den) * duration.num,
            }),
            m == (Frac {
                num: 1 * (x.den * duration.num) - (x.num * duration.den) * 1,
                den: 1 * (x.den * duration.num),
            }),
    ;
    let us = frac_mul(u, span);
    lemma_frac_mul_wf(u, span);
    lemma_frac_sub_wf(span, us);
    lemma_frac_sub_wf(hi, us);
    lemma_frac_add_wf(frac_sub(span, us), lo);
    lemma_frac_mul_congr(u2, m, span, span);
    lemma_frac_add_congr(frac_mul(u2, span), frac_mul(m, span), lo, lo);
    lemma_one_minus_times(u, span);
    lemma_frac_add_congr(frac_mul(m, span), frac_sub(span, us), lo, lo);
    lemma_span_add_back(hi, lo, us);
    crate::rational::lemma_frac_eq_trans(
        frac_add(frac_mul(u2, span), lo),
        frac_add(frac_mul(m, span), lo),
        frac_add(frac_sub(span, us), lo),
    );
    crate::rational::lemma_frac_eq_trans(
        frac_add(frac_mul(u2, span), lo),
        frac_add(frac_sub(span, us), lo),
        frac_sub(hi, us),
    );
}

/// Two pairs whose parts differ by a common factor stand for equal
/// rationals.
proof fn lemma_frac_eq_scaled(a: Frac, b: Frac, k: int)
    requires
        b.num == k * a.num,
        b.den == k * a.den,
    ensures
        frac_eq(a, b),
        frac_eq(b, a),
{
    assert(a.num * (k * a.den) == (k * a.num) * a.den) by (nonlinear_arith);
}

/// `(1 - u) * s` equals `s - u * s`.
proof fn lemma_one_minus_times(u: Frac, s: Frac)
    requires
        frac_wf(u),
        frac_wf(s),
    ensures
        frac_eq(frac_mul(frac_sub(frac_one(), u), s), frac_sub(s, frac_mul(u, s))),
{
    let a = frac_mul(frac_sub(frac_one(), u), s);
    let b = frac_sub(s, frac_mul(u, s));
    assert(b.num == s.den * a.num) by (nonlinear_arith)
        requires
            a.num == (1 * u.den - u.num * 1) * s.num,
            b.num == s.num * (u.den * s.den) - (u.num * s.num) * s.den,
    ;
    assert(b.den == s.den * a.den) by (nonlinear_arith)
        requires
            a.den == (1 * u.den) * s.den,
            b.den == s.den * (u.den * s.den),
    ;
    lemma_frac_eq_scaled(a, b, s.den);
}

/// `((hi - lo) - z) + lo` equals `hi - z`.
proof fn lemma_span_add_back(hi: Frac, lo: Frac, z: Frac)
    requires
        frac_wf(hi),
        frac_wf(lo),
        frac_wf(z),
    ensures
        frac_eq(frac_add(frac_sub(frac_sub(hi, lo), z), lo), frac_sub(hi, z)),
{
    let c = frac_add(frac_sub(frac_sub(hi, lo), z), lo);
    let d = frac_sub(hi, z);
    let sn = hi.num * lo.den - lo.num * hi.den;
    let t = hi.den * lo.den;
    assert(c.num == (sn * z.den - z.num * t) * lo.den + lo.num * (t * z.den));
    vstd::arithmetic::mul::lemma_mul_is_distributive_sub_other_way(lo.den, sn * z.den, z.num * t);
    vstd::arithmetic::mul::lemma_mul_is_distributive_sub_other_way(
        z.den,
        hi.num * lo.den,
        lo.num * hi.den,
    );
    vstd::arithmetic::mul::lemma_mul_is_distributive_sub_other_way(
        lo.den,
        (hi.num * lo.den) * z.den,
        (lo.num * hi.den) * z.den,
    );
    assert(((hi.num * lo.den) * z.den) * lo.den == (lo.den * lo.den) * (hi.num * z.den))
        by (nonlinear_arith);
    assert(((lo.num * hi.den) * z.den) * lo.den == lo.num * ((hi.den * lo.den) * z.den))
        by (nonlinear_arith);
    assert((sn * z.den) * lo.den == (lo.den * lo.den) * (hi.num * z.den) - lo.num * (t * z.den));
    assert((z.num * t) * lo.den == (lo.den * lo.den) * (z.num * hi.den)) by (nonlinear_arith)
        requires
            t == hi.den * lo.den,
    ;
    vstd::arithmetic::mul::lemma_mul_is_distributive_sub(
        lo.den * lo.den,
        hi.num * z.den,
        z.num * hi.den,
    );
    assert(c.num == (lo.den * lo.den) * d.num);
    assert(c.den == (lo.den * lo.den) * d.den) by (nonlinear_arith)
        requires
            c.den == ((hi.den * lo.den) * z.den) * lo.den,
            d.den == hi.den * z.den,
    ;
    lemma_frac_eq_scaled(d, c, lo.den * lo.den);
}

/// Computes the forward mapping exactly, or `None` when a step leaves the
/// representable range.
pub fn map_forward(duration: Rational, lo: Rational, hi: Rational, x: Rational) -> (r: Option<
    Rational,
>)
    requires
        duration.wf(),
        lo.wf(),
        hi.wf(),
        x.wf(),
        duration@.num != 0,
    ensures
        r is Some <==> mapped_forward_fits(duration@, lo@, hi@, x@),
        r is Some ==> r.unwrap().wf() && r.unwrap()@ == mapped_forward(duration@, lo@, hi@, x@),
{
    let u = match x.div(duration) {
        Some(v) => v,
        None => {
            return None;
        },
    };
    let span = match hi.sub(lo) {
        Some(v) => v,
        None => {
            return None;
        },
    };
    let us = match u.mul(span) {
        Some(v) => v,
        None => {
            return None;
        },
    };
    us.add(lo)
}

/// Computes the reversed mapping exactly, or `None` when a step leaves the
/// representable range.
pub fn map_reverse(duration: Rational, lo: Rational, hi: Rational, x: Rational) -> (r: Option<
    Rational,
>)
    requires
        duration.wf(),
        lo.wf(),
        hi.wf(),
        x.wf(),
        duration@.num != 0,
    ensures
        r is Some <==> mapped_reverse_fits(duration@, lo@, hi@, x@),
        r is Some ==> r.unwrap().wf() && r.unwrap()@ == mapped_reverse(duration@, lo@, hi@, x@),
{
    let u = match x.div(duration) {
        Some(v) => v,
        None => {
            return None;
        },
    };
    let span = match hi.sub(lo) {
        Some(v) => v,
        None => {
            return None;
        },
    };
    let us = match u.mul(span) {
        Some(v) => v,
        None => {
            return None;
        },
    };
    hi.sub(us)
}

} // verus!
