//! Differencing method: the current observation minus the observation
//! `period` ticks ago, in O(1) per tick — the window's evicted value is
//! exactly the value from `period` ticks ago.

use vstd::prelude::*;
use crate::types::{Error, in_range, in_range_seq};
use crate::window::Window;
use crate::method::Method;

verus! {

/// State transition of the differencing method: slide the window of raw
/// inputs.
pub open spec fn change_step(w: Seq<i64>, v: i64) -> Seq<i64> {
    w.drop_first().push(v)
}

/// Output of the differencing method: the new observation minus the
/// evicted one, the value from `period` ticks ago.
pub open spec fn change_out(w: Seq<i64>, v: i64) -> i64
    recommends
        w.len() >= 1,
{
    (v - w[0]) as i64
}

/// Difference from the observation a fixed number of ticks ago. Its model
/// is the window of the last `period` raw observations, oldest first.
#[derive(Debug, Clone)]
pub struct Change {
    period: u8,
    window: Window,
}

impl Method for Change {
    type Model = Seq<i64>;

    closed spec fn m(&self) -> Seq<i64> {
        self.window@
    }

    closed spec fn inv(&self) -> bool {
        &&& self.period >= 1
        &&& self.window.wf()
        &&& self.window@.len() == self.period
        &&& in_range_seq(self.window@)
    }

    open spec fn new_ok(period: u8) -> bool {
        period >= 1
    }

    open spec fn init_m(period: u8, value: i64) -> Seq<i64> {
        Seq::new(period as nat, |i: int| value)
    }

    open spec fn step_m(m: Seq<i64>, value: i64) -> Seq<i64> {
        change_step(m, value)
    }

    open spec fn out_m(m: Seq<i64>, value: i64) -> i64 {
        change_out(m, value)
    }

    open spec fn name_spec() -> Seq<char> {
        "Change"@
    }

    fn name(&self) -> (r: &'static str) {
        "Change"
    }

    fn new(period: u8, value: i64) -> (r: Result<Self, Error>) {
        if period == 0 {
            return Err(Error::WrongMethodParameters);
        }
        let window = Window::new(period as usize, value);
        proof {
            assert(window@ =~= Self::init_m(period, value));
        }
        Ok(Change { period, window })
    }

    fn next(&mut self, value: i64) -> (out: i64) {
        let evicted = self.window.push(value);
        proof {
            assert(in_range_seq(self.window@)) by {
                assert(forall|i: int|
                    0 <= i < self.window@.len() ==> in_range(#[trigger] self.window@[i]));
            };
        }
        value - evicted
    }
}

/// A well-formed differencing method models a non-empty window of
/// admissible values of exactly its period's length.
pub proof fn lemma_change_inv_model(c: &Change)
    requires
        c.inv(),
    ensures
        c.m().len() >= 1,
        in_range_seq(c.m()),
{
}

/// A constant input stream yields a zero difference: once the window holds
/// only `v`, feeding `v` keeps it constant and the output is exactly `0`.
pub proof fn lemma_change_const_zero(w: Seq<i64>, v: i64)
    requires
        w.len() >= 1,
        forall|i: int| 0 <= i < w.len() ==> w[i] == v,
    ensures
        change_step(w, v) =~= w,
        change_out(w, v) == 0,
{
}

} // verus!
