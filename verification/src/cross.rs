//! Signal-crossing detectors: stateful comparators that fire a unit signal
//! exactly on the tick where one stream transitions across another.
//! Equality counts as "not above / not below", so a value sitting on the
//! boundary is never itself a cross. The state is only the previous pair;
//! before any pair has been seen, nothing can fire.

use vstd::prelude::*;

verus! {

/// Whether a cross-above fires: the previous pair (if any) was at-or-below
/// and the current pair is strictly above.
pub open spec fn cross_above_fire(prev: Option<(i64, i64)>, a: i64, b: i64) -> bool {
    match prev {
        Option::None => false,
        Option::Some(p) => p.0 <= p.1 && a > b,
    }
}

/// Whether a cross-under fires: the previous pair (if any) was at-or-above
/// and the current pair is strictly below.
pub open spec fn cross_under_fire(prev: Option<(i64, i64)>, a: i64, b: i64) -> bool {
    match prev {
        Option::None => false,
        Option::Some(p) => p.0 >= p.1 && a < b,
    }
}

/// Detects the tick where stream `a` transitions from at-or-below stream
/// `b` to strictly above it. Its model is the previously seen pair.
#[derive(Debug, Clone)]
pub struct CrossAbove {
    primed: bool,
    prev_a: i64,
    prev_b: i64,
}

impl CrossAbove {
    /// The previously seen pair, if any.
    pub closed spec fn m(&self) -> Option<(i64, i64)> {
        if self.primed {
            Option::Some((self.prev_a, self.prev_b))
        } else {
            Option::None
        }
    }

    /// A fresh detector that has seen no pair yet.
    pub fn new() -> (r: CrossAbove)
        ensures
            r.m() is None,
    {
        CrossAbove { primed: false, prev_a: 0, prev_b: 0 }
    }

    /// Consume one pair; return `1` exactly when `a` crossed above `b` on
    /// this tick, else `0`.
    pub fn next(&mut self, a: i64, b: i64) -> (r: i8)
        ensures
            final(self).m() == Option::Some((a, b)),
            r == if cross_above_fire(old(self).m(), a, b) {
                1i8
            } else {
                0i8
            },
    {
        let fire = self.primed && self.prev_a <= self.prev_b && a > b;
        self.primed = true;
        self.prev_a = a;
        self.prev_b = b;
        if fire {
            1
        } else {
            0
        }
    }
}

impl Default for CrossAbove {
    /// Same as [`CrossAbove::new`].
    fn default() -> (r: CrossAbove)
        ensures
            r.m() is None,
    {
        CrossAbove::new()
    }
}

/// Detects the tick where stream `a` transitions from at-or-above stream
/// `b` to strictly below it. Its model is the previously seen pair.
#[derive(Debug, Clone)]
pub struct CrossUnder {
    primed: bool,
    prev_a: i64,
    prev_b: i64,
}

impl CrossUnder {
    /// The previously seen pair, if any.
    pub closed spec fn m(&self) -> Option<(i64, i64)> {
        if self.primed {
            Option::Some((self.prev_a, self.prev_b))
        } else {
            Option::None
        }
    }

    /// A fresh detector that has seen no pair yet.
    pub fn new() -> (r: CrossUnder)
        ensures
            r.m() is None,
    {
        CrossUnder { primed: false, prev_a: 0, prev_b: 0 }
    }

    /// Consume one pair; return `1` exactly when `a` crossed under `b` on
    /// this tick, else `0`.
    pub fn next(&mut self, a: i64, b: i64) -> (r: i8)
        ensures
            final(self).m() == Option::Some((a, b)),
            r == if cross_under_fire(old(self).m(), a, b) {
                1i8
            } else {
                0i8
            },
    {
        let fire = self.primed && self.prev_a >= self.prev_b && a < b;
        self.primed = true;
        self.prev_a = a;
        self.prev_b = b;
        if fire {
            1
        } else {
            0
        }
    }
}

impl Default for CrossUnder {
    /// Same as [`CrossUnder::new`].
    fn default() -> (r: CrossUnder)
        ensures
            r.m() is None,
    {
        CrossUnder::new()
    }
}

/// The output stream of a cross-above detector driven over paired
/// sequences from a given starting state.
pub open spec fn cross_above_outs(prev: Option<(i64, i64)>, a: Seq<i64>, b: Seq<i64>) -> Seq<i8>
    recommends
        a.len() == b.len(),
    decreases a.len(),
{
    if a.len() == 0 || b.len() == 0 {
        Seq::empty()
    } else {
        seq![
            if cross_above_fire(prev, a[0], b[0]) {
                1i8
            } else {
                0i8
            },
        ] + cross_above_outs(Option::Some((a[0], b[0])), a.drop_first(), b.drop_first())
    }
}

/// The output stream of a cross-under detector driven over paired
/// sequences from a given starting state.
pub open spec fn cross_under_outs(prev: Option<(i64, i64)>, a: Seq<i64>, b: Seq<i64>) -> Seq<i8>
    recommends
        a.len() == b.len(),
    decreases a.len(),
{
    if a.len() == 0 || b.len() == 0 {
        Seq::empty()
    } else {
        seq![
            if cross_under_fire(prev, a[0], b[0]) {
                1i8
            } else {
                0i8
            },
        ] + cross_under_outs(Option::Some((a[0], b[0])), a.drop_first(), b.drop_first())
    }
}

/// Crossing determinism for cross-above: over any paired sequences, a
/// detector that starts having seen no pair outputs nonzero exactly at
/// the indices `i > 0` where `a[i-1] <= b[i-1]` and `a[i] > b[i]`, and
/// zero everywhere else (in particular at index 0).
pub proof fn lemma_cross_above_determinism(prev: Option<(i64, i64)>, a: Seq<i64>, b: Seq<i64>)
    requires
        a.len() == b.len(),
    ensures
        cross_above_outs(prev, a, b).len() == a.len(),
        forall|i: int|
            0 <= i < a.len() ==> #[trigger] cross_above_outs(prev, a, b)[i] == if (i == 0
                && cross_above_fire(prev, a[0], b[0])) || (i > 0 && a[i - 1] <= b[i - 1] && a[i]
                > b[i]) {
                1i8
            } else {
                0i8
            },
    decreases a.len(),
{
    if a.len() > 0 {
        lemma_cross_above_determinism(
            Option::Some((a[0], b[0])),
            a.drop_first(),
            b.drop_first(),
        );
        let outs = cross_above_outs(prev, a, b);
        let rest = cross_above_outs(Option::Some((a[0], b[0])), a.drop_first(), b.drop_first());
        assert forall|i: int| 0 <= i < a.len() implies #[trigger] outs[i] == if (i == 0
            && cross_above_fire(prev, a[0], b[0])) || (i > 0 && a[i - 1] <= b[i - 1] && a[i]
            > b[i]) {
            1i8
        } else {
            0i8
        } by {
            if i > 0 {
                assert(outs[i] == rest[i - 1]);
                if i == 1 {
                    assert(cross_above_fire(Option::Some((a[0], b[0])), a[1], b[1]) == (a[0]
                        <= b[0] && a[1] > b[1]));
                } else {
                    assert(a.drop_first()[i - 2] == a[i - 1]);
                    assert(b.drop_first()[i - 2] == b[i - 1]);
                }
            }
        };
    }
}

/// Crossing determinism for cross-under, symmetric to
/// [`lemma_cross_above_determinism`].
pub proof fn lemma_cross_under_determinism(prev: Option<(i64, i64)>, a: Seq<i64>, b: Seq<i64>)
    requires
        a.len() == b.len(),
    ensures
        cross_under_outs(prev, a, b).len() == a.len(),
        forall|i: int|
            0 <= i < a.len() ==> #[trigger] cross_under_outs(prev, a, b)[i] == if (i == 0
                && cross_under_fire(prev, a[0], b[0])) || (i > 0 && a[i - 1] >= b[i - 1] && a[i]
                < b[i]) {
                1i8
            } else {
                0i8
            },
    decreases a.len(),
{
    if a.len() > 0 {
        lemma_cross_under_determinism(
            Option::Some((a[0], b[0])),
            a.drop_first(),
            b.drop_first(),
        );
        let outs = cross_under_outs(prev, a, b);
        let rest = cross_under_outs(Option::Some((a[0], b[0])), a.drop_first(), b.drop_first());
        assert forall|i: int| 0 <= i < a.len() implies #[trigger] outs[i] == if (i == 0
            && cross_under_fire(prev, a[0], b[0])) || (i > 0 && a[i - 1] >= b[i - 1] && a[i]
            < b[i]) {
            1i8
        } else {
            0i8
        } by {
            if i > 0 {
                assert(outs[i] == rest[i - 1]);
                if i == 1 {
                    assert(cross_under_fire(Option::Some((a[0], b[0])), a[1], b[1]) == (a[0]
                        >= b[0] && a[1] < b[1]));
                } else {
                    assert(a.drop_first()[i - 2] == a[i - 1]);
                    assert(b.drop_first()[i - 2] == b[i - 1]);
                }
            }
        };
    }
}

/// Crossing determinism for a freshly constructed cross-above detector,
/// stated verbatim: the output is nonzero exactly at the indices `i > 0`
/// where `a[i-1] <= b[i-1]` and `a[i] > b[i]`, and zero everywhere else.
pub proof fn lemma_cross_above_fresh(a: Seq<i64>, b: Seq<i64>)
    requires
        a.len() == b.len(),
    ensures
        cross_above_outs(Option::None, a, b).len() == a.len(),
        forall|i: int|
            0 <= i < a.len() ==> ((#[trigger] cross_above_outs(Option::None, a, b)[i] != 0)
                <==> (i > 0 && a[i - 1] <= b[i - 1] && a[i] > b[i])),
{
    lemma_cross_above_determinism(Option::None, a, b);
}

/// Crossing determinism for a freshly constructed cross-under detector,
/// stated verbatim: the output is nonzero exactly at the indices `i > 0`
/// where `a[i-1] >= b[i-1]` and `a[i] < b[i]`, and zero everywhere else.
pub proof fn lemma_cross_under_fresh(a: Seq<i64>, b: Seq<i64>)
    requires
        a.len() == b.len(),
    ensures
        cross_under_outs(Option::None, a, b).len() == a.len(),
        forall|i: int|
            0 <= i < a.len() ==> ((#[trigger] cross_under_outs(Option::None, a, b)[i] != 0)
                <==> (i > 0 && a[i - 1] >= b[i - 1] && a[i] < b[i])),
{
    lemma_cross_under_determinism(Option::None, a, b);
}

} // verus!
