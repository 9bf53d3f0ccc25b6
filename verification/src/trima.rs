//! Triangular moving average: a moving average applied to the output
//! stream of another moving average of the same period. Purely structural
//! composition — no special-cased formula — so its behaviour is inherited
//! from the two stages, including the identity transform at period 1.

use vstd::prelude::*;
use crate::types::{Error, in_range, in_range_seq};
use crate::method::{Method, fold_state, fold_outs};
use crate::sma::{
    SMA, sma_step, sma_out, sma_run_state, sma_run_outs, lemma_sma_out_in_range,
    lemma_sma_inv_model, lemma_sma_const_fixed_point, lemma_sma_const_convergence,
    lemma_sma_const_outputs, lemma_sma_run_len,
};

verus! {

/// State transition of the cascade: the first stage consumes the raw
/// observation, the second consumes the first stage's output.
pub open spec fn trima_step(m: (Seq<i64>, Seq<i64>), v: i64) -> (Seq<i64>, Seq<i64>) {
    (sma_step(m.0, v), sma_step(m.1, sma_out(m.0, v)))
}

/// Output of the cascade: the second stage's output.
pub open spec fn trima_out(m: (Seq<i64>, Seq<i64>), v: i64) -> i64 {
    sma_out(m.1, sma_out(m.0, v))
}

/// Triangular moving average of a fixed period: a cascade of two simple
/// moving averages. Its model is the pair of the stages' windows.
#[derive(Debug, Clone)]
pub struct TRIMA {
    sma1: SMA,
    sma2: SMA,
}

impl Method for TRIMA {
    type Model = (Seq<i64>, Seq<i64>);

    closed spec fn m(&self) -> (Seq<i64>, Seq<i64>) {
        (self.sma1.m(), self.sma2.m())
    }

    closed spec fn inv(&self) -> bool {
        self.sma1.inv() && self.sma2.inv()
    }

    open spec fn new_ok(period: u8) -> bool {
        period >= 1
    }

    open spec fn init_m(period: u8, value: i64) -> (Seq<i64>, Seq<i64>) {
        (Seq::new(period as nat, |i: int| value), Seq::new(period as nat, |i: int| value))
    }

    open spec fn step_m(m: (Seq<i64>, Seq<i64>), value: i64) -> (Seq<i64>, Seq<i64>) {
        trima_step(m, value)
    }

    open spec fn out_m(m: (Seq<i64>, Seq<i64>), value: i64) -> i64 {
        trima_out(m, value)
    }

    open spec fn name_spec() -> Seq<char> {
        "TRIMA"@
    }

    fn name(&self) -> (r: &'static str) {
        "TRIMA"
    }

    fn new(period: u8, value: i64) -> (r: Result<Self, Error>) {
        let sma1 = match SMA::new(period, value) {
            Ok(m) => m,
            Err(e) => {
                return Err(e);
            },
        };
        let sma2 = match SMA::new(period, value) {
            Ok(m) => m,
            Err(e) => {
                return Err(e);
            },
        };
        Ok(TRIMA { sma1, sma2 })
    }

    fn next(&mut self, value: i64) -> (out: i64) {
        proof {
            lemma_sma_inv_model(&self.sma1);
            lemma_sma_inv_model(&self.sma2);
            lemma_sma_out_in_range(self.sma1.m(), value);
        }
        let mid = self.sma1.next(value);
        proof {
            lemma_sma_out_in_range(self.sma2.m(), mid);
        }
        self.sma2.next(mid)
    }
}

/// The pair of window states of the cascade after folding a whole input
/// sequence, as [`Method::over`] describes it.
pub open spec fn trima_run_state(m: (Seq<i64>, Seq<i64>), s: Seq<i64>) -> (Seq<i64>, Seq<i64>) {
    fold_state(m, s, |t: (Seq<i64>, Seq<i64>), x: i64| TRIMA::step_m(t, x))
}

/// The output sequence of the cascade folded over a whole input sequence,
/// as [`Method::over`] describes it.
pub open spec fn trima_run_outs(m: (Seq<i64>, Seq<i64>), s: Seq<i64>) -> Seq<i64> {
    fold_outs(
        m,
        s,
        |t: (Seq<i64>, Seq<i64>), x: i64| TRIMA::step_m(t, x),
        |t: (Seq<i64>, Seq<i64>), x: i64| TRIMA::out_m(t, x),
    )
}

/// Composition law: cascading two moving averages over any sequence equals
/// applying the second stage's fold to the output sequence of the first
/// stage's fold — element by element, in order.
pub proof fn lemma_trima_cascade(w1: Seq<i64>, w2: Seq<i64>, s: Seq<i64>)
    ensures
        trima_run_outs((w1, w2), s) =~= sma_run_outs(w2, sma_run_outs(w1, s)),
        trima_run_state((w1, w2), s).0 == sma_run_state(w1, s),
        trima_run_state((w1, w2), s).1 == sma_run_state(w2, sma_run_outs(w1, s)),
    decreases s.len(),
{
    if s.len() == 0 {
    } else {
        let o1 = sma_out(w1, s[0]);
        let w1n = sma_step(w1, s[0]);
        let w2n = sma_step(w2, o1);
        lemma_trima_cascade(w1n, w2n, s.drop_first());
        assert(trima_run_state((w1, w2), s) == trima_run_state((w1n, w2n), s.drop_first()));
        assert(trima_run_outs((w1, w2), s) == seq![sma_out(w2, o1)] + trima_run_outs(
            (w1n, w2n),
            s.drop_first(),
        ));
        let inner = sma_run_outs(w1, s);
        assert(inner == seq![o1] + sma_run_outs(w1n, s.drop_first()));
        assert(inner.len() >= 1) by {
            crate::method::lemma_fold_outs_len(
                w1,
                s,
                |m: Seq<i64>, x: i64| SMA::step_m(m, x),
                |m: Seq<i64>, x: i64| SMA::out_m(m, x),
            );
        };
        assert(inner[0] == o1);
        assert(inner.drop_first() =~= sma_run_outs(w1n, s.drop_first()));
        assert(sma_run_outs(w2, inner) == seq![sma_out(w2, inner[0])] + sma_run_outs(
            sma_step(w2, inner[0]),
            inner.drop_first(),
        ));
        assert(sma_run_state(w2, inner) == sma_run_state(
            sma_step(w2, inner[0]),
            inner.drop_first(),
        ));
    }
}

/// A triangular moving average over a window pair holding only `v` keeps
/// that state and outputs exactly `v` — the constant fixed point is
/// inherited from both stages.
pub proof fn lemma_trima_const_fixed_point(w1: Seq<i64>, w2: Seq<i64>, v: i64)
    requires
        w1.len() >= 1,
        w2.len() >= 1,
        forall|i: int| 0 <= i < w1.len() ==> w1[i] == v,
        forall|i: int| 0 <= i < w2.len() ==> w2[i] == v,
    ensures
        trima_step((w1, w2), v).0 =~= w1,
        trima_step((w1, w2), v).1 =~= w2,
        trima_out((w1, w2), v) == v,
{
    lemma_sma_const_fixed_point(w1, v);
    lemma_sma_const_fixed_point(w2, v);
}

/// Constant fixed point for the composite: feeding `v` repeatedly, the
/// first stage's window converges within its period and the second
/// stage's within another period, so after `2 * period` ticks both
/// windows hold only `v` and the output is exactly `v` from then on.
pub proof fn lemma_trima_const_convergence(w1: Seq<i64>, w2: Seq<i64>, s: Seq<i64>, v: i64)
    requires
        w1.len() >= 1,
        w2.len() >= 1,
        forall|i: int| 0 <= i < s.len() ==> s[i] == v,
        s.len() >= w1.len() + w2.len(),
    ensures
        trima_run_state((w1, w2), s).0 =~= Seq::new(w1.len(), |i: int| v),
        trima_run_state((w1, w2), s).1 =~= Seq::new(w2.len(), |i: int| v),
        trima_out(trima_run_state((w1, w2), s), v) == v,
{
    let step = |m: Seq<i64>, x: i64| SMA::step_m(m, x);
    let outf = |m: Seq<i64>, x: i64| SMA::out_m(m, x);
    let cut = s.len() - w2.len();
    let s1 = s.take(cut);
    let s2 = s.skip(cut);
    assert(s1 + s2 =~= s);
    lemma_trima_cascade(w1, w2, s);

    lemma_sma_const_convergence(w1, s, v);
    assert(trima_run_state((w1, w2), s).0 =~= Seq::new(w1.len(), |i: int| v)) by {
        assert(forall|i: int|
            0 <= i < w1.len() ==> #[trigger] sma_run_state(w1, s)[i] == v);
    };

    crate::method::lemma_fold_append(w1, s1, s2, step, outf);
    let wmid = sma_run_state(w1, s1);
    assert(forall|i: int| 0 <= i < s1.len() ==> s1[i] == v);
    lemma_sma_const_convergence(w1, s1, v);
    assert(forall|i: int| 0 <= i < wmid.len() ==> wmid[i] == v) by {
        assert(forall|i: int|
            0 <= i < w1.len() ==> #[trigger] sma_run_state(w1, s1)[i] == v);
    };
    assert(wmid.len() == w1.len());
    assert(forall|i: int| 0 <= i < s2.len() ==> s2[i] == v);
    lemma_sma_const_outputs(wmid, s2, v);
    let outs_a = sma_run_outs(w1, s1);
    let outs_b = sma_run_outs(wmid, s2);
    assert(sma_run_outs(w1, s) == outs_a + outs_b);

    crate::method::lemma_fold_append(w2, outs_a, outs_b, step, outf);
    let w2mid = sma_run_state(w2, outs_a);
    assert(sma_run_state(w2, sma_run_outs(w1, s)) == sma_run_state(w2mid, outs_b));
    lemma_sma_run_len(w2, outs_a);
    assert(forall|i: int| 0 <= i < outs_b.len() ==> outs_b[i] == v) by {
        assert(outs_b =~= Seq::new(s2.len(), |i: int| v));
    };
    lemma_sma_const_convergence(w2mid, outs_b, v);
    assert(outs_b.len() == w2.len()) by {
        crate::method::lemma_fold_outs_len(wmid, s2, step, outf);
    };
    assert(trima_run_state((w1, w2), s).1 =~= Seq::new(w2.len(), |i: int| v)) by {
        assert(forall|i: int|
            0 <= i < w2.len() ==> #[trigger] sma_run_state(w2mid, outs_b)[i] == v);
    };

    let f1 = Seq::new(w1.len(), |i: int| v);
    let f2 = Seq::new(w2.len(), |i: int| v);
    lemma_trima_const_fixed_point(f1, f2, v);
    assert(trima_run_state((w1, w2), s) == (f1, f2));
}

} // verus!
