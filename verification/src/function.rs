//! The composite function tree.
//!
//! A `Function` concatenates primitive segments end to end along its own time
//! axis, shifted by a per-node delay, and sums any number of child trees
//! evaluated in the parent's coordinate.  Each node caches the half-open
//! interval `[start, stop)` over which it is defined; the cache is recomputed
//! by a full rescan on every structural mutation, so querying never revisits
//! the structure.

use vstd::prelude::*;

use crate::mapping::frac_in_domain;
use crate::rational::{
    Frac, Rational, frac_add, frac_fits, frac_le, frac_lt, frac_sub, frac_wf, frac_zero,
    lemma_frac_add_wf, lemma_frac_le_add_nonneg, lemma_frac_le_trans,
};
use crate::subfunction::{Subfunction, sub_duration, sub_fits, sub_value};
use crate::value::{Amp, Value, amp_add, amp_add_fits, amp_zero};

verus! {

/// A node of the function tree.
pub struct Function {
    /// Primitive segments, concatenated along the time axis in list order.
    pub piecewise: Vec<Subfunction>,
    /// Offset of this node's local zero relative to its parent's coordinate.
    pub delay: Rational,
    /// Child trees, each evaluated at the parent's coordinate and summed.
    pub fcn: Vec<Function>,
    /// Cached validity interval `[start, stop)`.
    pub limits: (Rational, Rational),
}

/// The running stop bound after laying some prefix of the segments end to
/// end, and whether every addition fit the representation.
pub ghost struct StopFold {
    pub stop: Frac,
    pub ok: bool,
}

/// Lays the segment prefix end to end: each segment's duration is added to
/// the running stop bound.
pub open spec fn seg_stop(pieces: Seq<Subfunction>, init: Frac) -> StopFold
    decreases pieces.len(),
{
    if pieces.len() == 0 {
        StopFold { stop: init, ok: true }
    } else {
        let prev = seg_stop(pieces.drop_last(), init);
        let next = frac_add(prev.stop, sub_duration(pieces.last()));
        StopFold { stop: next, ok: prev.ok && frac_fits(next) }
    }
}

/// Expands a `(start, stop)` bound by each child's cached limits in list
/// order, exactly as the rescan does.
pub open spec fn child_limits(children: Seq<Function>, start: Frac, stop: Frac) -> (Frac, Frac)
    decreases children.len(),
{
    if children.len() == 0 {
        (start, stop)
    } else {
        let prev = child_limits(children.drop_last(), start, stop);
        let c = children.last();
        let s = if frac_lt(c.limits.0@, prev.0) {
            c.limits.0@
        } else {
            prev.0
        };
        let e = if frac_lt(prev.1, c.limits.1@) {
            c.limits.1@
        } else {
            prev.1
        };
        (s, e)
    }
}

/// The validity limits a full rescan computes for a node: start and stop
/// open at the delay, the stop pushed by each segment's duration, and both
/// expanded over every child's cached limits.
pub open spec fn tree_limits(f: Function) -> (Frac, Frac) {
    child_limits(f.fcn@, f.delay@, seg_stop(f.piecewise@, f.delay@).stop)
}

/// Whether the rescan's additions all fit the representation.
pub open spec fn tree_limits_ok(f: Function) -> bool {
    seg_stop(f.piecewise@, f.delay@).ok
}

/// Whether `x` lies in the node's cached validity interval.
pub open spec fn in_limits(f: Function, x: Frac) -> bool {
    frac_le(f.limits.0@, x) && frac_lt(x, f.limits.1@)
}

/// The state of the segment walk after some prefix: the accumulated
/// amplitude, the running local coordinate, and whether every step fit.
pub ghost struct WalkFold {
    pub acc: Amp,
    pub local: Frac,
    pub ok: bool,
}

/// Walks the segment prefix: a segment whose half-open domain contains the
/// running local coordinate contributes its value; the coordinate then
/// advances past the segment's duration, match or not.
pub open spec fn seg_walk(pieces: Seq<Subfunction>, init: Frac) -> WalkFold
    decreases pieces.len(),
{
    if pieces.len() == 0 {
        WalkFold { acc: amp_zero(), local: init, ok: true }
    } else {
        let prev = seg_walk(pieces.drop_last(), init);
        let s = pieces.last();
        let inside = frac_in_domain(prev.local, sub_duration(s));
        let next_local = frac_sub(prev.local, sub_duration(s));
        WalkFold {
            acc: if inside {
                amp_add(prev.acc, sub_value(s, prev.local))
            } else {
                prev.acc
            },
            local: next_local,
            ok: prev.ok && (inside ==> sub_fits(s, prev.local) && amp_add_fits(
                prev.acc,
                sub_value(s, prev.local),
            )) && frac_fits(next_local),
        }
    }
}

/// The accumulated amplitude after some prefix of the children, and whether
/// every step fit.
pub ghost struct ChildFold {
    pub acc: Amp,
    pub ok: bool,
}

/// Sums the children over a prefix: a child whose cached limits contain `x`
/// contributes its generated amplitude at `x`; any other child contributes
/// nothing at all.
pub open spec fn child_walk(children: Seq<Function>, x: Frac, init: Amp) -> ChildFold
    decreases children, 0int,
{
    if children.len() == 0 {
        ChildFold { acc: init, ok: true }
    } else {
        let prev = child_walk(children.drop_last(), x, init);
        let c = children.last();
        if in_limits(c, x) {
            let g = tree_gen(c, x);
            ChildFold {
                acc: amp_add(prev.acc, g.acc),
                ok: prev.ok && g.ok && amp_add_fits(prev.acc, g.acc),
            }
        } else {
            prev
        }
    }
}

/// The amplitude a node generates at `x`, assuming `x` is within its limits:
/// the segment walk at `x - delay`, plus every in-range child at `x` itself.
pub open spec fn tree_gen(f: Function, x: Frac) -> ChildFold
    decreases f, 1int,
{
    let local0 = frac_sub(x, f.delay@);
    let sw = seg_walk(f.piecewise@, local0);
    let cw = child_walk(f.fcn@, x, sw.acc);
    ChildFold { acc: cw.acc, ok: frac_fits(local0) && sw.ok && cw.ok }
}

/// Additions that fit over the whole segment list fit over every prefix.
pub proof fn lemma_seg_stop_prefix(pieces: Seq<Subfunction>, init: Frac, i: int)
    requires
        0 <= i <= pieces.len(),
    ensures
        seg_stop(pieces, init).ok ==> seg_stop(pieces.take(i), init).ok,
    decreases pieces.len(),
{
    if i == pieces.len() {
        assert(pieces.take(i) =~= pieces);
    } else {
        lemma_seg_stop_prefix(pieces.drop_last(), init, i);
        assert(pieces.drop_last().take(i) =~= pieces.take(i));
    }
}

/// A segment walk that fit over the whole list fit over every prefix.
pub proof fn lemma_seg_walk_prefix(pieces: Seq<Subfunction>, init: Frac, i: int)
    requires
        0 <= i <= pieces.len(),
    ensures
        seg_walk(pieces, init).ok ==> seg_walk(pieces.take(i), init).ok,
    decreases pieces.len(),
{
    if i == pieces.len() {
        assert(pieces.take(i) =~= pieces);
    } else {
        lemma_seg_walk_prefix(pieces.drop_last(), init, i);
        assert(pieces.drop_last().take(i) =~= pieces.take(i));
    }
}

/// A child walk that fit over the whole list fit over every prefix.
pub proof fn lemma_child_walk_prefix(children: Seq<Function>, x: Frac, init: Amp, i: int)
    requires
        0 <= i <= children.len(),
    ensures
        child_walk(children, x, init).ok ==> child_walk(children.take(i), x, init).ok,
    decreases children.len(),
{
    if i == children.len() {
        assert(children.take(i) =~= children);
    } else {
        lemma_child_walk_prefix(children.drop_last(), x, init, i);
        assert(children.drop_last().take(i) =~= children.take(i));
    }
}

/// Concatenation law: in a node of exactly two segments and no children,
/// a coordinate owned by the first segment yields that segment's value at
/// the local coordinate, one owned by the second yields the second's value
/// at the coordinate shifted past the first's duration, and the node's stop
/// bound is the delay plus both durations — so the node is undefined from
/// there on.
pub proof fn lemma_concatenation(f: Function, x: Frac)
    requires
        f.wf(),
        f.piecewise@.len() == 2,
        f.fcn@.len() == 0,
    ensures
        ({
            let local = frac_sub(x, f.delay@);
            let s1 = f.piecewise@[0];
            let s2 = f.piecewise@[1];
            let shifted = frac_sub(local, sub_duration(s1));
            &&& f.limits.1@ == frac_add(frac_add(f.delay@, sub_duration(s1)), sub_duration(s2))
            &&& !(frac_in_domain(local, sub_duration(s1)) && frac_in_domain(
                shifted,
                sub_duration(s2),
            ))
            &&& frac_in_domain(local, sub_duration(s1)) && !frac_in_domain(
                shifted,
                sub_duration(s2),
            ) ==> tree_gen(f, x).acc == amp_add(amp_zero(), sub_value(s1, local))
            &&& !frac_in_domain(local, sub_duration(s1)) && frac_in_domain(
                shifted,
                sub_duration(s2),
            ) ==> tree_gen(f, x).acc == amp_add(amp_zero(), sub_value(s2, shifted))
            &&& !frac_in_domain(local, sub_duration(s1)) && !frac_in_domain(
                shifted,
                sub_duration(s2),
            ) ==> tree_gen(f, x).acc == amp_zero()
        }),
{
    let local = frac_sub(x, f.delay@);
    let pieces = f.piecewise@;
    let shifted = frac_sub(local, sub_duration(pieces[0]));
    if frac_in_domain(local, sub_duration(pieces[0])) {
        assert(local.num * sub_duration(pieces[0]).den < sub_duration(pieces[0]).num * local.den);
        assert(shifted.num < 0);
        assert(!frac_le(frac_zero(), shifted));
    }
    reveal_with_fuel(seg_walk, 3);
    reveal_with_fuel(seg_stop, 3);
    reveal_with_fuel(child_walk, 2);
    assert(pieces.drop_last().drop_last() =~= Seq::<Subfunction>::empty());
    assert(pieces.drop_last().len() == 1);
    assert(pieces.drop_last().last() == pieces[0]);
    assert(pieces.last() == pieces[1]);
    assert(f.fcn@ =~= Seq::<Function>::empty());
}

/// Superposition law: in a node of one segment and one child, each side
/// contributes exactly where it is defined — the segment where its domain
/// contains the local coordinate, the child where its limits contain the
/// coordinate itself — and an absent side contributes nothing, rather than
/// making the sum undefined.
pub proof fn lemma_superposition(f: Function, x: Frac)
    requires
        f.wf(),
        f.piecewise@.len() == 1,
        f.fcn@.len() == 1,
    ensures
        ({
            let local = frac_sub(x, f.delay@);
            let s = f.piecewise@[0];
            let c = f.fcn@[0];
            &&& frac_in_domain(local, sub_duration(s)) && !in_limits(c, x) ==> tree_gen(f, x).acc
                == amp_add(amp_zero(), sub_value(s, local))
            &&& !frac_in_domain(local, sub_duration(s)) && in_limits(c, x) ==> tree_gen(f, x).acc
                == amp_add(amp_zero(), tree_gen(c, x).acc)
            &&& frac_in_domain(local, sub_duration(s)) && in_limits(c, x) ==> tree_gen(f, x).acc
                == amp_add(amp_add(amp_zero(), sub_value(s, local)), tree_gen(c, x).acc)
            &&& !frac_in_domain(local, sub_duration(s)) && !in_limits(c, x) ==> tree_gen(f, x).acc
                == amp_zero()
        }),
{
    let pieces = f.piecewise@;
    let children = f.fcn@;
    reveal_with_fuel(tree_gen, 2);
    reveal_with_fuel(seg_walk, 2);
    reveal_with_fuel(child_walk, 2);
    assert(pieces.drop_last() =~= Seq::<Subfunction>::empty());
    assert(pieces.last() == pieces[0]);
    assert(children.drop_last() =~= Seq::<Function>::empty());
    assert(children.last() == children[0]);
}

/// The running stop bound of the segment rescan is well-formed whenever the
/// delay and the segments are.
pub proof fn lemma_seg_stop_wf(pieces: Seq<Subfunction>, init: Frac)
    requires
        frac_wf(init),
        forall|i: int| 0 <= i < pieces.len() ==> (#[trigger] pieces[i]).wf(),
    ensures
        frac_wf(seg_stop(pieces, init).stop),
    decreases pieces.len(),
{
    if pieces.len() != 0 {
        lemma_seg_stop_wf(pieces.drop_last(), init);
        assert(pieces.last().wf());
        assert(frac_wf(sub_duration(pieces.last())));
        lemma_frac_add_wf(seg_stop(pieces.drop_last(), init).stop, sub_duration(pieces.last()));
    }
}

/// The start bound the child fold computes does not depend on the stop bound
/// it is given.
pub proof fn lemma_child_limits_start(children: Seq<Function>, start: Frac, e1: Frac, e2: Frac)
    ensures
        child_limits(children, start, e1).0 == child_limits(children, start, e2).0,
    decreases children.len(),
{
    if children.len() != 0 {
        lemma_child_limits_start(children.drop_last(), start, e1, e2);
    }
}

/// The stop bound the child fold computes grows with the stop bound it is
/// given, and stays well-formed.
pub proof fn lemma_child_limits_stop_mono(children: Seq<Function>, start: Frac, e1: Frac, e2: Frac)
    requires
        frac_wf(e1),
        frac_wf(e2),
        frac_le(e1, e2),
        forall|i: int| 0 <= i < children.len() ==> (#[trigger] children[i]).wf(),
    ensures
        frac_wf(child_limits(children, start, e1).1),
        frac_wf(child_limits(children, start, e2).1),
        frac_le(child_limits(children, start, e1).1, child_limits(children, start, e2).1),
    decreases children.len(),
{
    if children.len() != 0 {
        lemma_child_limits_stop_mono(children.drop_last(), start, e1, e2);
        let c = children.last();
        assert(c.wf());
        let p1 = child_limits(children.drop_last(), start, e1).1;
        let p2 = child_limits(children.drop_last(), start, e2).1;
        let n1 = child_limits(children, start, e1).1;
        let n2 = child_limits(children, start, e2).1;
        if frac_lt(p1, c.limits.1@) && !frac_lt(p2, c.limits.1@) {
            // n1 is the child's stop, which is at most p2 == n2.
        } else if !frac_lt(p1, c.limits.1@) && frac_lt(p2, c.limits.1@) {
            // n1 == p1 <= p2 < the child's stop == n2.
            lemma_frac_le_trans(p1, p2, c.limits.1@);
        }
    }
}

impl Function {
    /// Everything but the limits cache: every stored rational is well-formed
    /// and every child is fully well-formed.
    pub open spec fn wf_core(self) -> bool
        decreases self, 0int,
    {
        &&& self.delay.wf()
        &&& self.limits.0.wf()
        &&& self.limits.1.wf()
        &&& forall|i: int| 0 <= i < self.piecewise@.len() ==> (#[trigger] self.piecewise@[i]).wf()
        &&& forall|i: int| 0 <= i < self.fcn@.len() ==> (#[trigger] self.fcn@[i]).wf()
    }

    /// Well-formedness: the cached limits are exactly what a rescan of the
    /// current structure computes, whose additions all fit.
    pub open spec fn wf(self) -> bool
        decreases self, 1int,
    {
        &&& self.wf_core()
        &&& tree_limits_ok(self)
        &&& self.limits.0@ == tree_limits(self).0
        &&& self.limits.1@ == tree_limits(self).1
    }

    /// Creates an empty node with no delay; it is defined nowhere until
    /// something is added.
    pub fn new() -> (r: Function)
        ensures
            r.wf(),
            r.piecewise@.len() == 0,
            r.fcn@.len() == 0,
            r.delay@ == frac_zero(),
            r.limits.0@ == frac_zero(),
            r.limits.1@ == frac_zero(),
    {
        let zero = Rational::zero();
        Function { piecewise: Vec::new(), delay: zero, fcn: Vec::new(), limits: (zero, zero) }
    }

    /// Creates an empty node whose local zero is shifted by `delay` relative
    /// to its parent's coordinate.  A positive delay pushes the node later; a
    /// negative one makes it lead.
    pub fn new_delay(delay: Rational) -> (r: Function)
        requires
            delay.wf(),
        ensures
            r.wf(),
            r.piecewise@.len() == 0,
            r.fcn@.len() == 0,
            r.delay == delay,
            r.limits.0 == delay,
            r.limits.1 == delay,
    {
        Function { piecewise: Vec::new(), delay, fcn: Vec::new(), limits: (delay, delay) }
    }

    /// The cached validity limits `[start, stop)`.
    pub fn get_limits(&self) -> (r: (Rational, Rational))
        requires
            self.wf(),
        ensures
            r == self.limits,
            r.0.wf() && r.1.wf(),
            r.0@ == tree_limits(*self).0,
            r.1@ == tree_limits(*self).1,
    {
        (self.limits.0, self.limits.1)
    }

    /// Recomputes the cached limits by a full rescan of the current
    /// structure.  Returns `false`, leaving the cache untouched, when an
    /// addition leaves the representable range.
    fn set_limits(&mut self) -> (ok: bool)
        requires
            old(self).wf_core(),
        ensures
            final(self).piecewise == old(self).piecewise,
            final(self).delay == old(self).delay,
            final(self).fcn == old(self).fcn,
            ok <==> tree_limits_ok(*old(self)),
            ok ==> final(self).wf(),
            !ok ==> final(self).limits == old(self).limits,
    {
        let ghost pieces = self.piecewise@;
        let mut stop = self.delay;
        let mut i: usize = 0;
        while i < self.piecewise.len()
            invariant
                self == old(self),
                old(self).wf_core(),
                pieces == self.piecewise@,
                i <= pieces.len(),
                stop.wf(),
                seg_stop(pieces.take(i as int), self.delay@).ok,
                stop@ == seg_stop(pieces.take(i as int), self.delay@).stop,
            decreases pieces.len() - i,
        {
            let dur = self.piecewise[i].get_duration();
            proof {
                assert(pieces.take(i + 1).drop_last() =~= pieces.take(i as int));
                assert(pieces.take(i + 1).last() == pieces[i as int]);
            }
            stop = match stop.add(dur) {
                Some(v) => v,
                None => {
                    proof {
                        lemma_seg_stop_prefix(pieces, self.delay@, i + 1);
                    }
                    return false;
                },
            };
            i = i + 1;
        }
        proof {
            assert(pieces.take(pieces.len() as int) =~= pieces);
        }
        let ghost children = self.fcn@;
        let ghost seg_end = stop@;
        let mut start = self.delay;
        let mut j: usize = 0;
        while j < self.fcn.len()
            invariant
                self == old(self),
                old(self).wf_core(),
                children == self.fcn@,
                j <= children.len(),
                start.wf(),
                stop.wf(),
                start@ == child_limits(children.take(j as int), self.delay@, seg_end).0,
                stop@ == child_limits(children.take(j as int), self.delay@, seg_end).1,
            decreases children.len() - j,
        {
            let child = &self.fcn[j];
            proof {
                assert(children[j as int].wf());
                assert(children.take(j + 1).drop_last() =~= children.take(j as int));
                assert(children.take(j + 1).last() == children[j as int]);
            }
            if child.limits.0.lt(start) {
                start = child.limits.0;
            }
            if stop.lt(child.limits.1) {
                stop = child.limits.1;
            }
            j = j + 1;
        }
        proof {
            assert(children.take(children.len() as int) =~= children);
        }
        self.limits = (start, stop);
        true
    }

    /// Appends a segment after all current segments and rescans the limits.
    ///
    /// Succeeds exactly when the rescan over the extended segment list fits
    /// the representation; then the segment is appended, the start bound is
    /// untouched, and a nonnegative duration can only push the stop bound
    /// out.  Otherwise the node is left unchanged.
    pub fn add_subfunction(&mut self, sub: Subfunction) -> (ok: bool)
        requires
            old(self).wf(),
            sub.wf(),
        ensures
            final(self).delay == old(self).delay,
            final(self).fcn == old(self).fcn,
            final(self).wf(),
            ok <==> seg_stop(old(self).piecewise@.push(sub), old(self).delay@).ok,
            ok ==> final(self).piecewise@ == old(self).piecewise@.push(sub),
            ok ==> final(self).limits.0@ == old(self).limits.0@,
            ok && frac_le(frac_zero(), sub_duration(sub)) ==> frac_le(
                old(self).limits.1@,
                final(self).limits.1@,
            ),
            !ok ==> final(self).piecewise@ == old(self).piecewise@ && final(self).limits == old(
                self,
            ).limits,
    {
        self.piecewise.push(sub);
        let ok = self.set_limits();
        if ok {
            proof {
                let oldp = old(self).piecewise@;
                let d = old(self).delay@;
                assert(self.piecewise@.drop_last() =~= oldp);
                let e_old = seg_stop(oldp, d).stop;
                let e_new = seg_stop(self.piecewise@, d).stop;
                lemma_child_limits_start(old(self).fcn@, d, e_new, e_old);
                if frac_le(frac_zero(), sub_duration(sub)) {
                    lemma_seg_stop_wf(oldp, d);
                    assert(frac_wf(sub_duration(sub)));
                    lemma_frac_le_add_nonneg(e_old, sub_duration(sub));
                    lemma_frac_add_wf(e_old, sub_duration(sub));
                    lemma_child_limits_stop_mono(old(self).fcn@, d, e_old, e_new);
                }
            }
            ok
        } else {
            self.piecewise.pop();
            proof {
                assert(self.piecewise@ =~= old(self).piecewise@);
            }
            ok
        }
    }

    /// Appends a child tree after all current children and rescans the
    /// limits.  This always succeeds: a child brings no new additions to the
    /// rescan, only comparisons.  The new limits are the old ones expanded
    /// over the child's: they can only widen, never narrow.
    pub fn add_function(&mut self, fcn: Function) -> (ok: bool)
        requires
            old(self).wf(),
            fcn.wf(),
        ensures
            ok,
            final(self).delay == old(self).delay,
            final(self).piecewise == old(self).piecewise,
            final(self).wf(),
            final(self).fcn@ == old(self).fcn@.push(fcn),
            frac_le(final(self).limits.0@, old(self).limits.0@),
            frac_le(old(self).limits.1@, final(self).limits.1@),
    {
        self.fcn.push(fcn);
        let ok = self.set_limits();
        proof {
            assert(self.fcn@.drop_last() =~= old(self).fcn@);
            assert(seg_stop(self.piecewise@, self.delay@).stop == seg_stop(
                old(self).piecewise@,
                old(self).delay@,
            ).stop);
        }
        ok
    }

    /// Evaluates the tree at coordinate `x`.
    ///
    /// Returns `None` when `x` is outside the cached limits `[start, stop)`.
    /// Inside them, the result is exact: the owning segment's contribution at
    /// `x - delay` (nothing where no segment covers the coordinate) plus the
    /// amplitude of every child whose own limits contain `x` — unless a step
    /// of the exact arithmetic leaves the representable range, which also
    /// returns `None`.
    pub fn generate(&self, x: Rational) -> (r: Option<Value>)
        requires
            self.wf(),
            x.wf(),
        ensures
            r is Some <==> in_limits(*self, x@) && tree_gen(*self, x@).ok,
            r is Some ==> r.unwrap().wf() && r.unwrap()@ == tree_gen(*self, x@).acc,
        decreases *self,
    {
        if !(self.limits.0.le(x) && x.lt(self.limits.1)) {
            return None;
        }
        let mut local = match x.sub(self.delay) {
            Some(v) => v,
            None => {
                return None;
            },
        };
        let ghost local0 = local@;
        let ghost pieces = self.piecewise@;
        let mut acc = Value::zero();
        let mut i: usize = 0;
        while i < self.piecewise.len()
            invariant
                self.wf(),
                x.wf(),
                local.wf(),
                acc.wf(),
                pieces == self.piecewise@,
                i <= pieces.len(),
                in_limits(*self, x@),
                local0 == frac_sub(x@, self.delay@),
                frac_fits(local0),
                seg_walk(pieces.take(i as int), local0).ok,
                acc@ == seg_walk(pieces.take(i as int), local0).acc,
                local@ == seg_walk(pieces.take(i as int), local0).local,
            decreases pieces.len() - i,
        {
            let piece = &self.piecewise[i];
            let dur = piece.get_duration();
            proof {
                assert(pieces.take(i + 1).drop_last() =~= pieces.take(i as int));
                assert(pieces.take(i + 1).last() == pieces[i as int]);
            }
            let zero = Rational::zero();
            if zero.le(local) && local.lt(dur) {
                let v = match piece.generate(local) {
                    Some(v) => v,
                    None => {
                        proof {
                            lemma_seg_walk_prefix(pieces, local0, i + 1);
                        }
                        return None;
                    },
                };
                acc = match acc.add(&v) {
                    Some(a) => a,
                    None => {
                        proof {
                            lemma_seg_walk_prefix(pieces, local0, i + 1);
                        }
                        return None;
                    },
                };
            }
            local = match local.sub(dur) {
                Some(v) => v,
                None => {
                    proof {
                        lemma_seg_walk_prefix(pieces, local0, i + 1);
                    }
                    return None;
                },
            };
            i = i + 1;
        }
        proof {
            assert(pieces.take(pieces.len() as int) =~= pieces);
        }
        let ghost children = self.fcn@;
        let ghost seg_acc = acc@;
        let mut j: usize = 0;
        while j < self.fcn.len()
            invariant
                self.wf(),
                x.wf(),
                acc.wf(),
                children == self.fcn@,
                j <= children.len(),
                in_limits(*self, x@),
                local0 == frac_sub(x@, self.delay@),
                frac_fits(local0),
                seg_walk(self.piecewise@, local0).ok,
                seg_acc == seg_walk(self.piecewise@, local0).acc,
                child_walk(children.take(j as int), x@, seg_acc).ok,
                acc@ == child_walk(children.take(j as int), x@, seg_acc).acc,
            decreases children.len() - j,
        {
            let child = &self.fcn[j];
            proof {
                assert(children[j as int].wf());
                assert(children.take(j + 1).drop_last() =~= children.take(j as int));
                assert(children.take(j + 1).last() == children[j as int]);
            }
            if child.limits.0.le(x) && x.lt(child.limits.1) {
                let v = match child.generate(x) {
                    Some(v) => v,
                    None => {
                        proof {
                            lemma_child_walk_prefix(children, x@, seg_acc, j + 1);
                        }
                        return None;
                    },
                };
                acc = match acc.add(&v) {
                    Some(a) => a,
                    None => {
                        proof {
                            lemma_child_walk_prefix(children, x@, seg_acc, j + 1);
                        }
                        return None;
                    },
                };
            }
            j = j + 1;
        }
        proof {
            assert(children.take(children.len() as int) =~= children);
        }
        Some(acc)
    }
}

} // verus!
