//! Integer arithmetic the streaming statistics are built on: truncating
//! division (the fixed-point analogue of float division) and sums of a
//! per-element measure over a sequence, with the sliding-window update
//! lemmas that make O(1) maintenance of such sums provable.

use vstd::prelude::*;

verus! {

/// Division truncating toward zero (the semantics of Rust's `/` on signed
/// integers), as a spec-level function of mathematical integers.
pub open spec fn div_trunc_spec(a: int, b: int) -> int
    recommends
        b > 0,
{
    if a >= 0 {
        a / b
    } else {
        -((-a) / b)
    }
}

/// Magnitude of a mathematical integer.
pub open spec fn abs_int(a: int) -> int {
    if a >= 0 {
        a
    } else {
        -a
    }
}

/// Truncating division on `i64`, proved equal to [`div_trunc_spec`].
pub fn div_trunc(a: i64, b: i64) -> (q: i64)
    requires
        b > 0,
        a > i64::MIN,
    ensures
        q == div_trunc_spec(a as int, b as int),
        abs_int(q as int) <= abs_int(a as int),
{
    if a >= 0 {
        let q = (a as u64) / (b as u64);
        q as i64
    } else {
        let m = ((-a) as u64) / (b as u64);
        -(m as i64)
    }
}

/// Truncating division on `i128`, proved equal to [`div_trunc_spec`].
pub fn div_trunc_i128(a: i128, b: i128) -> (q: i128)
    requires
        b > 0,
        a > i128::MIN,
    ensures
        q == div_trunc_spec(a as int, b as int),
        abs_int(q as int) <= abs_int(a as int),
{
    if a >= 0 {
        let q = (a as u128) / (b as u128);
        q as i128
    } else {
        let m = ((-a) as u128) / (b as u128);
        -(m as i128)
    }
}

/// An exact quotient passes through truncating division unchanged: the
/// fixed-point mean of `n` equal values is that value.
pub proof fn lemma_div_trunc_exact(v: int, b: int)
    requires
        b > 0,
    ensures
        div_trunc_spec(v * b, b) == v,
{
    if v >= 0 {
        assert(v * b >= 0) by (nonlinear_arith)
            requires
                v >= 0 && b > 0,
        ;
        assert(v * b / b == v) by (nonlinear_arith)
            requires
                b > 0,
        ;
    } else {
        assert(v * b < 0) by (nonlinear_arith)
            requires
                v < 0 && b > 0,
        ;
        assert(-(v * b) == (-v) * b) by (nonlinear_arith);
        assert((-v) * b / b == -v) by (nonlinear_arith)
            requires
                b > 0,
        ;
    }
}

/// Truncating division by a positive divisor never grows the magnitude of
/// a bounded dividend past the bound.
pub proof fn lemma_div_trunc_bound(a: int, b: int, c: int)
    requires
        b > 0,
        abs_int(a) <= c,
    ensures
        abs_int(div_trunc_spec(a, b)) <= c,
{
    if a >= 0 {
        assert(a / b <= a) by (nonlinear_arith)
            requires
                a >= 0 && b > 0,
        ;
        assert(a / b >= 0) by (nonlinear_arith)
            requires
                a >= 0 && b > 0,
        ;
    } else {
        assert((-a) / b <= -a) by (nonlinear_arith)
            requires
                -a >= 0 && b > 0,
        ;
        assert((-a) / b >= 0) by (nonlinear_arith)
            requires
                -a >= 0 && b > 0,
        ;
    }
}

/// A dividend bounded by `b * c` in magnitude has a quotient bounded by
/// `c` in magnitude.
pub proof fn lemma_div_trunc_quotient_bound(a: int, b: int, c: int)
    requires
        b > 0,
        c >= 0,
        abs_int(a) <= b * c,
    ensures
        abs_int(div_trunc_spec(a, b)) <= c,
{
    if a >= 0 {
        assert(a / b <= c) by (nonlinear_arith)
            requires
                b > 0 && 0 <= a <= b * c,
        ;
        assert(a / b >= 0) by (nonlinear_arith)
            requires
                a >= 0 && b > 0,
        ;
    } else {
        assert((-a) / b <= c) by (nonlinear_arith)
            requires
                b > 0 && 0 <= -a <= b * c,
        ;
        assert((-a) / b >= 0) by (nonlinear_arith)
            requires
                -a >= 0 && b > 0,
        ;
    }
}

/// Sum of a per-element measure `f` over a sequence.
pub open spec fn sum_map(s: Seq<i64>, f: spec_fn(i64) -> int) -> int
    decreases s.len(),
{
    if s.len() == 0 {
        0
    } else {
        sum_map(s.drop_last(), f) + f(s.last())
    }
}

/// The plain sum of a sequence of values.
pub open spec fn sum_seq(s: Seq<i64>) -> int {
    sum_map(s, |x: i64| x as int)
}

/// Appending an element adds its measure to the sum.
pub proof fn lemma_sum_map_push(s: Seq<i64>, f: spec_fn(i64) -> int, v: i64)
    ensures
        sum_map(s.push(v), f) == sum_map(s, f) + f(v),
{
    assert(s.push(v).drop_last() =~= s);
    assert(s.push(v).last() == v);
}

/// The sum splits off its first element.
pub proof fn lemma_sum_map_drop_first(s: Seq<i64>, f: spec_fn(i64) -> int)
    requires
        s.len() >= 1,
    ensures
        sum_map(s, f) == f(s[0]) + sum_map(s.drop_first(), f),
    decreases s.len(),
{
    if s.len() == 1 {
        assert(s.drop_first() =~= Seq::<i64>::empty());
        assert(s.drop_last() =~= Seq::<i64>::empty());
        assert(s.last() == s[0]);
    } else {
        lemma_sum_map_drop_first(s.drop_last(), f);
        assert(s.drop_last().drop_first() =~= s.drop_first().drop_last());
        assert(s.drop_last()[0] == s[0]);
        assert(s.drop_first().last() == s.last());
    }
}

/// The sliding-window update: evicting the oldest element and appending a
/// new one changes the sum by the difference of their measures.
pub proof fn lemma_sum_map_slide(s: Seq<i64>, f: spec_fn(i64) -> int, v: i64)
    requires
        s.len() >= 1,
    ensures
        sum_map(s.drop_first().push(v), f) == sum_map(s, f) - f(s[0]) + f(v),
{
    lemma_sum_map_drop_first(s, f);
    lemma_sum_map_push(s.drop_first(), f, v);
}

/// A uniform per-element bound on the measure bounds the sum linearly.
pub proof fn lemma_sum_map_bounds(s: Seq<i64>, f: spec_fn(i64) -> int, lo: int, hi: int)
    requires
        forall|i: int| 0 <= i < s.len() ==> lo <= #[trigger] f(s[i]) <= hi,
    ensures
        s.len() * lo <= sum_map(s, f) <= s.len() * hi,
    decreases s.len(),
{
    if s.len() == 0 {
    } else {
        lemma_sum_map_bounds(s.drop_last(), f, lo, hi);
        assert(f(s.last()) == f(s[s.len() - 1]));
        assert((s.len() - 1) * lo + lo == s.len() * lo) by (nonlinear_arith);
        assert((s.len() - 1) * hi + hi == s.len() * hi) by (nonlinear_arith);
    }
}

/// A nonnegative measure sums to a nonnegative total.
pub proof fn lemma_sum_map_nonneg(s: Seq<i64>, f: spec_fn(i64) -> int)
    requires
        forall|j: int| 0 <= j < s.len() ==> 0 <= #[trigger] f(s[j]),
    ensures
        0 <= sum_map(s, f),
    decreases s.len(),
{
    if s.len() > 0 {
        assert(forall|j: int|
            0 <= j < s.drop_last().len() ==> 0 <= #[trigger] f(s.drop_last()[j]));
        lemma_sum_map_nonneg(s.drop_last(), f);
        assert(f(s.last()) == f(s[s.len() - 1]));
    }
}

/// With a nonnegative measure, the sum dominates the measure of any one
/// element.
pub proof fn lemma_sum_map_elem_lower(s: Seq<i64>, f: spec_fn(i64) -> int, i: int)
    requires
        0 <= i < s.len(),
        forall|j: int| 0 <= j < s.len() ==> 0 <= #[trigger] f(s[j]),
    ensures
        f(s[i]) <= sum_map(s, f),
    decreases s.len(),
{
    assert(forall|j: int|
        0 <= j < s.drop_last().len() ==> 0 <= #[trigger] f(s.drop_last()[j]));
    if i == s.len() - 1 {
        lemma_sum_map_nonneg(s.drop_last(), f);
        assert(f(s.last()) == f(s[i]));
    } else {
        lemma_sum_map_elem_lower(s.drop_last(), f, i);
        assert(s.drop_last()[i] == s[i]);
        assert(f(s.last()) == f(s[s.len() - 1]));
    }
}

/// If every element has the same measure, the sum is that measure times the
/// length.
pub proof fn lemma_sum_map_const(s: Seq<i64>, f: spec_fn(i64) -> int, c: int)
    requires
        forall|i: int| 0 <= i < s.len() ==> #[trigger] f(s[i]) == c,
    ensures
        sum_map(s, f) == s.len() * c,
{
    lemma_sum_map_bounds(s, f, c, c);
}

} // verus!
