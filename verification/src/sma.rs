//! Simple moving average: the fixed-point mean of the last `period`
//! observations, maintained in O(1) per tick through the window's
//! push-and-evict contract.

use vstd::prelude::*;
use crate::types::{Error, VAL_MAX, in_range, in_range_seq};
use crate::math::{
    div_trunc, div_trunc_spec, sum_seq, sum_map, abs_int, lemma_sum_map_slide,
    lemma_sum_map_const, lemma_sum_map_bounds, lemma_div_trunc_exact,
};
use crate::window::Window;
use crate::method::{Method, fold_state, fold_outs};

verus! {

/// State transition of the moving average: slide the window.
pub open spec fn sma_step(w: Seq<i64>, v: i64) -> Seq<i64> {
    w.drop_first().push(v)
}

/// Output of the moving average: the truncating mean of the slid window.
pub open spec fn sma_out(w: Seq<i64>, v: i64) -> i64
    recommends
        w.len() >= 1,
{
    div_trunc_spec(sum_seq(sma_step(w, v)), w.len() as int) as i64
}

/// Identity measure, the one summed by [`sum_seq`].
pub open spec fn id_measure() -> spec_fn(i64) -> int {
    |x: i64| x as int
}

/// Simple moving average of a fixed period. Its model is the window of the
/// last `period` observations, oldest first.
#[derive(Debug, Clone)]
pub struct SMA {
    period: u8,
    window: Window,
    sum: i64,
}

/// A window of admissible values sums within `len * VAL_MAX`.
pub proof fn lemma_sum_seq_bound(w: Seq<i64>)
    requires
        in_range_seq(w),
    ensures
        -(w.len() as int) * VAL_MAX <= sum_seq(w) <= (w.len() as int) * VAL_MAX,
{
    lemma_sum_map_bounds(w, id_measure(), -VAL_MAX as int, VAL_MAX as int);
    assert((w.len() as int) * (-VAL_MAX as int) == -(w.len() as int) * VAL_MAX)
        by (nonlinear_arith);
}

/// The truncating mean of admissible values is admissible.
pub proof fn lemma_sma_out_in_range(w: Seq<i64>, v: i64)
    requires
        w.len() >= 1,
        in_range_seq(w),
        in_range(v),
    ensures
        in_range(sma_out(w, v)),
        in_range_seq(sma_step(w, v)),
{
    let w2 = sma_step(w, v);
    assert(in_range_seq(w2)) by {
        assert(forall|i: int| 0 <= i < w2.len() ==> in_range(#[trigger] w2[i]));
    };
    lemma_sum_seq_bound(w2);
    let n = w.len() as int;
    let s = sum_seq(w2);
    assert(w2.len() == n);
    assert(abs_int(div_trunc_spec(s, n)) <= VAL_MAX) by (nonlinear_arith)
        requires
            n >= 1,
            -n * VAL_MAX <= s <= n * VAL_MAX,
    ;
}

impl Method for SMA {
    type Model = Seq<i64>;

    closed spec fn m(&self) -> Seq<i64> {
        self.window@
    }

    closed spec fn inv(&self) -> bool {
        &&& self.period >= 1
        &&& self.window.wf()
        &&& self.window@.len() == self.period
        &&& in_range_seq(self.window@)
        &&& self.sum == sum_seq(self.window@)
    }

    open spec fn new_ok(period: u8) -> bool {
        period >= 1
    }

    open spec fn init_m(period: u8, value: i64) -> Seq<i64> {
        Seq::new(period as nat, |i: int| value)
    }

    open spec fn step_m(m: Seq<i64>, value: i64) -> Seq<i64> {
        sma_step(m, value)
    }

    open spec fn out_m(m: Seq<i64>, value: i64) -> i64 {
        sma_out(m, value)
    }

    open spec fn name_spec() -> Seq<char> {
        "SMA"@
    }

    fn name(&self) -> (r: &'static str) {
        "SMA"
    }

    fn new(period: u8, value: i64) -> (r: Result<Self, Error>) {
        if period == 0 {
            return Err(Error::WrongMethodParameters);
        }
        let window = Window::new(period as usize, value);
        assert((period as i64) * value <= 255 * VAL_MAX && (period as i64) * value >= -255
            * VAL_MAX) by (nonlinear_arith)
            requires
                1 <= period <= 255,
                -VAL_MAX <= value <= VAL_MAX,
        ;
        let sum = (period as i64) * value;
        proof {
            lemma_sum_map_const(window@, id_measure(), value as int);
            assert(window@ =~= Self::init_m(period, value));
        }
        Ok(SMA { period, window, sum })
    }

    fn next(&mut self, value: i64) -> (out: i64) {
        proof {
            lemma_sum_seq_bound(self.window@);
            lemma_sum_map_slide(self.window@, id_measure(), value);
        }
        let evicted = self.window.push(value);
        self.sum = self.sum - evicted + value;
        proof {
            lemma_sma_out_in_range(old(self).window@, value);
        }
        div_trunc(self.sum, self.period as i64)
    }

}

/// A well-formed moving average models a non-empty window of admissible
/// values of exactly its period's length.
pub proof fn lemma_sma_inv_model(s: &SMA)
    requires
        s.inv(),
    ensures
        s.m().len() >= 1,
        in_range_seq(s.m()),
{
}

/// Constant fixed point, steady part: once the window holds only `v`,
/// feeding `v` keeps the window constant and the output is exactly `v`,
/// with no drift.
pub proof fn lemma_sma_const_fixed_point(w: Seq<i64>, v: i64)
    requires
        w.len() >= 1,
        forall|i: int| 0 <= i < w.len() ==> w[i] == v,
    ensures
        sma_step(w, v) =~= w,
        sma_out(w, v) == v,
{
    assert(sma_step(w, v) =~= w);
    lemma_sum_map_const(sma_step(w, v), id_measure(), v as int);
    assert(sum_seq(sma_step(w, v)) == (w.len() as int) * (v as int));
    assert((w.len() as int) * (v as int) == (v as int) * (w.len() as int)) by (nonlinear_arith);
    lemma_div_trunc_exact(v as int, w.len() as int);
}

/// The window state of a moving average after folding a whole input
/// sequence, as [`Method::over`] describes it.
pub open spec fn sma_run_state(w: Seq<i64>, s: Seq<i64>) -> Seq<i64> {
    fold_state(w, s, |m: Seq<i64>, x: i64| SMA::step_m(m, x))
}

/// The output sequence of a moving average folded over a whole input
/// sequence, as [`Method::over`] describes it.
pub open spec fn sma_run_outs(w: Seq<i64>, s: Seq<i64>) -> Seq<i64> {
    fold_outs(
        w,
        s,
        |m: Seq<i64>, x: i64| SMA::step_m(m, x),
        |m: Seq<i64>, x: i64| SMA::out_m(m, x),
    )
}

/// Constant fixed point, convergence part: feeding `v` repeatedly, the
/// window state after `k` ticks holds the survivors of the old window
/// followed by copies of `v`; after at least `period` ticks it holds only
/// `v`, so by the steady part the output has converged to exactly `v`
/// within `period` ticks.
pub proof fn lemma_sma_const_convergence(w: Seq<i64>, s: Seq<i64>, v: i64)
    requires
        w.len() >= 1,
        forall|i: int| 0 <= i < s.len() ==> s[i] == v,
    ensures
        sma_run_state(w, s).len() == w.len(),
        forall|i: int|
            0 <= i < w.len() ==> #[trigger] sma_run_state(w, s)[i] == if i + s.len() < w.len() {
                w[i + s.len()]
            } else {
                v
            },
    decreases s.len(),
{
    let step = |m: Seq<i64>, x: i64| SMA::step_m(m, x);
    if s.len() == 0 {
    } else {
        let w2 = step(w, s[0]);
        assert(w2 == sma_step(w, s[0]));
        assert(w2.len() == w.len());
        assert(forall|i: int| 0 <= i < s.drop_first().len() ==> s.drop_first()[i] == v);
        lemma_sma_const_convergence(w2, s.drop_first(), v);
        assert(sma_run_state(w, s) == sma_run_state(w2, s.drop_first()));
        assert forall|i: int| 0 <= i < w.len() implies #[trigger] sma_run_state(w, s)[i] == if i
            + s.len() < w.len() {
            w[i + s.len()]
        } else {
            v
        } by {
            if i + (s.len() - 1) < w.len() {
                assert(sma_run_state(w2, s.drop_first())[i] == w2[i + s.len() - 1]);
                if i + s.len() - 1 < w.len() - 1 {
                    assert(w2[i + s.len() - 1] == w[i + s.len()]);
                } else {
                    assert(w2[i + s.len() - 1] == s[0]);
                    assert(s[0] == v);
                }
            }
        };
    }
}

/// A moving average's fold preserves the window's length.
pub proof fn lemma_sma_run_len(w: Seq<i64>, s: Seq<i64>)
    requires
        w.len() >= 1,
    ensures
        sma_run_state(w, s).len() == w.len(),
    decreases s.len(),
{
    if s.len() > 0 {
        let step = |m: Seq<i64>, x: i64| SMA::step_m(m, x);
        let w2 = step(w, s[0]);
        assert(w2.len() == w.len());
        lemma_sma_run_len(w2, s.drop_first());
        assert(sma_run_state(w, s) == sma_run_state(w2, s.drop_first()));
    }
}

/// Over a window already holding only `v` and a constant input of `v`,
/// every output of the fold is exactly `v` and the window stays constant.
pub proof fn lemma_sma_const_outputs(w: Seq<i64>, s: Seq<i64>, v: i64)
    requires
        w.len() >= 1,
        forall|i: int| 0 <= i < w.len() ==> w[i] == v,
        forall|i: int| 0 <= i < s.len() ==> s[i] == v,
    ensures
        sma_run_state(w, s) =~= w,
        sma_run_outs(w, s) =~= Seq::new(s.len(), |i: int| v),
    decreases s.len(),
{
    if s.len() > 0 {
        lemma_sma_const_fixed_point(w, v);
        let step = |m: Seq<i64>, x: i64| SMA::step_m(m, x);
        let outf = |m: Seq<i64>, x: i64| SMA::out_m(m, x);
        assert(step(w, s[0]) == sma_step(w, v));
        assert(sma_step(w, v) =~= w);
        assert(forall|i: int| 0 <= i < s.drop_first().len() ==> s.drop_first()[i] == v);
        lemma_sma_const_outputs(w, s.drop_first(), v);
        assert(sma_run_state(w, s) == sma_run_state(w, s.drop_first()));
        assert(outf(w, s[0]) == v);
        assert(sma_run_outs(w, s) == seq![v] + sma_run_outs(w, s.drop_first()));
        assert(seq![v] + Seq::new((s.len() - 1) as nat, |i: int| v) =~= Seq::new(
            s.len(),
            |i: int| v,
        ));
    }
}

} // verus!
