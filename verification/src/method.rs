//! The contract every streaming statistic satisfies.
//!
//! A method is constructed from a period parameter and the first observed
//! value, seeded as if it had been running forever on that value; it then
//! transforms one observation into one output per tick. Each implementor
//! publishes a mathematical model of its state (`Model`) and the pure
//! transition and output functions on that model; the executable `next`
//! is proved to follow them exactly, so batch and incremental computation
//! provably agree.

use vstd::prelude::*;
use crate::types::{Error, in_range, in_range2, in_range_seq};

verus! {

/// The model state after folding a whole input sequence through a pure
/// transition function.
pub open spec fn fold_state<T>(m: T, s: Seq<i64>, step: spec_fn(T, i64) -> T) -> T
    decreases s.len(),
{
    if s.len() == 0 {
        m
    } else {
        fold_state(step(m, s[0]), s.drop_first(), step)
    }
}

/// The output sequence of folding a whole input sequence through pure
/// transition and output functions.
pub open spec fn fold_outs<T>(
    m: T,
    s: Seq<i64>,
    step: spec_fn(T, i64) -> T,
    out: spec_fn(T, i64) -> i64,
) -> Seq<i64>
    decreases s.len(),
{
    if s.len() == 0 {
        Seq::empty()
    } else {
        seq![out(m, s[0])] + fold_outs(step(m, s[0]), s.drop_first(), step, out)
    }
}

/// A stateful transform from one observation per tick to one output.
pub trait Method: Sized {
    /// Mathematical model of the method's state.
    type Model;

    /// Abstraction function: the model of the current state.
    spec fn m(&self) -> Self::Model;

    /// Well-formedness of the concrete state.
    spec fn inv(&self) -> bool;

    /// Whether construction succeeds for this period parameter.
    spec fn new_ok(period: u8) -> bool;

    /// Model of a freshly constructed method: seeded as if it had been
    /// running on an infinite history of `value`.
    spec fn init_m(period: u8, value: i64) -> Self::Model;

    /// Pure state transition on one observation.
    spec fn step_m(m: Self::Model, value: i64) -> Self::Model;

    /// Pure output on one observation.
    spec fn out_m(m: Self::Model, value: i64) -> i64;

    /// The method's display name.
    spec fn name_spec() -> Seq<char>;

    /// Return the method's display name, stored explicitly per method.
    fn name(&self) -> (r: &'static str)
        ensures
            r@ == Self::name_spec(),
    ;

    /// Memory size of the method state, as `(size, align)`.
    fn memsize(&self) -> (r: (usize, usize))
        ensures
            r.0 as nat == vstd::layout::size_of::<Self>(),
            r.1 as nat == vstd::layout::align_of::<Self>(),
    {
        (core::mem::size_of::<Self>(), core::mem::align_of::<Self>())
    }

    /// Construct from a period parameter and the first observation.
    /// Succeeds exactly when the parameter is valid; never panics.
    fn new(period: u8, value: i64) -> (r: Result<Self, Error>)
        requires
            in_range(value),
        ensures
            r is Ok <==> Self::new_ok(period),
            r is Ok ==> (r->Ok_0).inv() && (r->Ok_0).m() == Self::init_m(period, value),
            r is Err ==> r->Err_0 == Error::WrongMethodParameters,
    ;

    /// Consume one observation, update the state along `step_m`, and
    /// return `out_m` of the prior state — a pure function of
    /// (prior state, value).
    fn next(&mut self, value: i64) -> (out: i64)
        requires
            old(self).inv(),
            in_range(value),
        ensures
            final(self).inv(),
            final(self).m() == Self::step_m(old(self).m(), value),
            out == Self::out_m(old(self).m(), value),
            in_range2(out),
    ;

    /// Apply `next` once per input element, in order. The output length
    /// always equals the input length, and the outputs are exactly the
    /// model fold over the inputs.
    fn over(&mut self, inputs: &Vec<i64>) -> (out: Vec<i64>)
        requires
            old(self).inv(),
            in_range_seq(inputs@),
        ensures
            final(self).inv(),
            final(self).m() == fold_state(
                old(self).m(),
                inputs@,
                (|m: Self::Model, v: i64| Self::step_m(m, v)),
            ),
            out@ == fold_outs(
                old(self).m(),
                inputs@,
                (|m: Self::Model, v: i64| Self::step_m(m, v)),
                (|m: Self::Model, v: i64| Self::out_m(m, v)),
            ),
            out@.len() == inputs@.len(),
    {
        let ghost step = |m: Self::Model, v: i64| Self::step_m(m, v);
        let ghost outf = |m: Self::Model, v: i64| Self::out_m(m, v);
        let mut out: Vec<i64> = Vec::new();
        let n = inputs.len();
        let mut i: usize = 0;
        while i < n
            invariant
                i <= n,
                n == inputs@.len(),
                in_range_seq(inputs@),
                step == (|m: Self::Model, v: i64| Self::step_m(m, v)),
                outf == (|m: Self::Model, v: i64| Self::out_m(m, v)),
                self.inv(),
                self.m() == fold_state(old(self).m(), inputs@.take(i as int), step),
                out@ == fold_outs(old(self).m(), inputs@.take(i as int), step, outf),
                out@.len() == i,
            decreases n - i,
        {
            proof {
                assert(inputs@.take(i as int).push(inputs@[i as int]) =~= inputs@.take(
                    i + 1 as int,
                ));
                lemma_fold_snoc(old(self).m(), inputs@.take(i as int), step, outf, inputs@[i as int]);
                assert(step(self.m(), inputs@[i as int]) == Self::step_m(self.m(), inputs@[i as int]));
                assert(outf(self.m(), inputs@[i as int]) == Self::out_m(self.m(), inputs@[i as int]));
            }
            let v = inputs[i];
            let o = self.next(v);
            out.push(o);
            i += 1;
        }
        proof {
            assert(inputs@.take(n as int) =~= inputs@);
        }
        out
    }

    /// Construct from the first element and run `over` the whole input.
    /// On empty input returns an empty output without constructing.
    fn new_over(period: u8, inputs: &Vec<i64>) -> (r: Result<Vec<i64>, Error>)
        requires
            in_range_seq(inputs@),
        ensures
            inputs@.len() == 0 ==> r is Ok && (r->Ok_0)@.len() == 0,
            inputs@.len() > 0 ==> ((r is Ok) <==> Self::new_ok(period)),
            (inputs@.len() > 0 && r is Ok) ==> (r->Ok_0)@ == fold_outs(
                Self::init_m(period, inputs@[0]),
                inputs@,
                (|m: Self::Model, v: i64| Self::step_m(m, v)),
                (|m: Self::Model, v: i64| Self::out_m(m, v)),
            ),
            (r is Ok) ==> (r->Ok_0)@.len() == inputs@.len(),
            r is Err ==> r->Err_0 == Error::WrongMethodParameters,
    {
        if inputs.len() == 0 {
            return Ok(Vec::new());
        }
        let first = inputs[0];
        let mut method = match Self::new(period, first) {
            Ok(m) => m,
            Err(e) => {
                return Err(e);
            },
        };
        let out = method.over(inputs);
        Ok(out)
    }
}

/// Folding one more observation extends the fold by one step and the
/// output sequence by one element.
pub proof fn lemma_fold_snoc<T>(
    m: T,
    s: Seq<i64>,
    step: spec_fn(T, i64) -> T,
    out: spec_fn(T, i64) -> i64,
    v: i64,
)
    ensures
        fold_state(m, s.push(v), step) == step(fold_state(m, s, step), v),
        fold_outs(m, s.push(v), step, out) =~= fold_outs(m, s, step, out).push(
            out(fold_state(m, s, step), v),
        ),
    decreases s.len(),
{
    if s.len() == 0 {
        assert(s.push(v).drop_first() =~= Seq::<i64>::empty());
        assert(s.push(v)[0] == v);
        assert(fold_state(m, s.push(v), step) == fold_state(
            step(m, v),
            Seq::<i64>::empty(),
            step,
        ));
        assert(fold_outs(m, s.push(v), step, out) == seq![out(m, v)] + fold_outs(
            step(m, v),
            Seq::<i64>::empty(),
            step,
            out,
        ));
        assert(fold_outs(m, s, step, out).push(out(m, v)) =~= seq![out(m, v)]
            + Seq::<i64>::empty());
    } else {
        assert(s.push(v).drop_first() =~= s.drop_first().push(v));
        assert(s.push(v)[0] == s[0]);
        lemma_fold_snoc(step(m, s[0]), s.drop_first(), step, out, v);
        assert(fold_state(m, s.push(v), step) == fold_state(
            step(m, s[0]),
            s.drop_first().push(v),
            step,
        ));
        assert(fold_state(m, s, step) == fold_state(step(m, s[0]), s.drop_first(), step));
        assert(fold_outs(m, s.push(v), step, out) == seq![out(m, s[0])] + fold_outs(
            step(m, s[0]),
            s.drop_first().push(v),
            step,
            out,
        ));
        assert(fold_outs(m, s, step, out).push(out(fold_state(m, s, step), v)) =~= seq![
            out(m, s[0]),
        ] + fold_outs(step(m, s[0]), s.drop_first(), step, out).push(
            out(fold_state(step(m, s[0]), s.drop_first(), step), v),
        ));
    }
}

/// The fold emits exactly one output per input.
pub proof fn lemma_fold_outs_len<T>(
    m: T,
    s: Seq<i64>,
    step: spec_fn(T, i64) -> T,
    out: spec_fn(T, i64) -> i64,
)
    ensures
        fold_outs(m, s, step, out).len() == s.len(),
    decreases s.len(),
{
    if s.len() > 0 {
        lemma_fold_outs_len(step(m, s[0]), s.drop_first(), step, out);
    }
}

/// Folding a concatenation folds the pieces in order: the second fold
/// starts from the first fold's final state, and the output sequences
/// concatenate.
pub proof fn lemma_fold_append<T>(
    m: T,
    s1: Seq<i64>,
    s2: Seq<i64>,
    step: spec_fn(T, i64) -> T,
    out: spec_fn(T, i64) -> i64,
)
    ensures
        fold_state(m, s1 + s2, step) == fold_state(fold_state(m, s1, step), s2, step),
        fold_outs(m, s1 + s2, step, out) =~= fold_outs(m, s1, step, out) + fold_outs(
            fold_state(m, s1, step),
            s2,
            step,
            out,
        ),
    decreases s1.len(),
{
    if s1.len() == 0 {
        assert(s1 + s2 =~= s2);
        assert(fold_outs(m, s1, step, out) =~= Seq::<i64>::empty());
        assert(Seq::<i64>::empty() + fold_outs(m, s2, step, out) =~= fold_outs(
            m,
            s2,
            step,
            out,
        ));
    } else {
        assert((s1 + s2).len() > 0);
        assert((s1 + s2)[0] == s1[0]);
        assert((s1 + s2).drop_first() =~= s1.drop_first() + s2);
        lemma_fold_append(step(m, s1[0]), s1.drop_first(), s2, step, out);
        assert(fold_state(m, s1 + s2, step) == fold_state(
            step(m, s1[0]),
            s1.drop_first() + s2,
            step,
        ));
        assert(fold_state(m, s1, step) == fold_state(step(m, s1[0]), s1.drop_first(), step));
        assert(fold_outs(m, s1 + s2, step, out) == seq![out(m, s1[0])] + fold_outs(
            step(m, s1[0]),
            s1.drop_first() + s2,
            step,
            out,
        ));
        assert(fold_outs(m, s1, step, out) == seq![out(m, s1[0])] + fold_outs(
            step(m, s1[0]),
            s1.drop_first(),
            step,
            out,
        ));
        assert(seq![out(m, s1[0])] + (fold_outs(step(m, s1[0]), s1.drop_first(), step, out)
            + fold_outs(fold_state(m, s1, step), s2, step, out)) =~= (seq![out(m, s1[0])]
            + fold_outs(step(m, s1[0]), s1.drop_first(), step, out)) + fold_outs(
            fold_state(m, s1, step),
            s2,
            step,
            out,
        ));
    }
}

} // verus!
