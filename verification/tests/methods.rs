//! Tests of the primitive methods, the batch drivers and the crossing
//! detectors on concrete values.

use yata::method::Method;
use yata::sma::SMA;
use yata::change::Change;
use yata::trima::TRIMA;
use yata::cross::{CrossAbove, CrossUnder};
use yata::window::Window;
use yata::types::Error;

const ONE: f64 = 1_000_000.0;

fn fp(x: f64) -> i64 {
    (x * ONE).round() as i64
}

#[test]
fn sma_period_two_scenario() {
    let s: Vec<i64> = (1..=10).map(|i| fp(i as f64)).collect();
    let mut ma = SMA::new(2, s[0]).unwrap();
    let result = ma.over(&s);
    let expected: Vec<i64> = [1.0, 1.5, 2.5, 3.5, 4.5, 5.5, 6.5, 7.5, 8.5, 9.5]
        .iter()
        .map(|&x| fp(x))
        .collect();
    assert_eq!(result, expected);
}

#[test]
fn trima_cascade_scenario() {
    let mut trima = TRIMA::new(4, fp(1.0)).unwrap();
    let o1 = trima.next(fp(1.0));
    let o2 = trima.next(fp(1.0));
    let o3 = trima.next(fp(2.0));
    let o4 = trima.next(fp(3.0));
    let o5 = trima.next(fp(4.0));
    assert_eq!(o1, fp(1.0));
    assert_eq!(o2, fp(1.0));
    assert_eq!(o3, fp(1.0625));
    assert_eq!(o4, fp(1.25));
    assert_eq!(o5, fp(1.625));
}

#[test]
fn period_one_is_identity() {
    let s: Vec<i64> = vec![fp(3.5), fp(-2.0), fp(0.0), fp(7.25), fp(7.25), fp(-10.0)];
    let mut sma = SMA::new(1, s[0]).unwrap();
    let mut trima = TRIMA::new(1, s[0]).unwrap();
    for &x in s.iter() {
        assert_eq!(sma.next(x), x);
        assert_eq!(trima.next(x), x);
    }
}

#[test]
fn change_differences() {
    let mut ch = Change::new(1, fp(10.0)).unwrap();
    assert_eq!(ch.next(fp(11.0)), fp(1.0));
    assert_eq!(ch.next(fp(9.5)), fp(-1.5));
    assert_eq!(ch.next(fp(9.5)), fp(0.0));
    let mut ch3 = Change::new(3, fp(1.0)).unwrap();
    // The first three outputs difference against the seeded history.
    assert_eq!(ch3.next(fp(2.0)), fp(1.0));
    assert_eq!(ch3.next(fp(3.0)), fp(2.0));
    assert_eq!(ch3.next(fp(4.0)), fp(3.0));
    // From the fourth tick the lag is the real value three ticks ago.
    assert_eq!(ch3.next(fp(4.0)), fp(2.0));
}

#[test]
fn over_preserves_length() {
    let s: Vec<i64> = (0..57).map(|i| fp(i as f64 * 0.25)).collect();
    let mut ma = SMA::new(5, s[0]).unwrap();
    assert_eq!(ma.over(&s).len(), s.len());
    let mut ma_long = SMA::new(100, s[0]).unwrap();
    assert_eq!(ma_long.over(&s).len(), s.len());
    let empty: Vec<i64> = Vec::new();
    let mut ma2 = SMA::new(3, fp(1.0)).unwrap();
    assert_eq!(ma2.over(&empty).len(), 0);
}

#[test]
fn new_over_matches_manual_fold() {
    let s: Vec<i64> = vec![fp(2.0), fp(4.0), fp(1.0), fp(8.0), fp(5.5)];
    let batch = SMA::new_over(3, &s).unwrap();
    let mut ma = SMA::new(3, s[0]).unwrap();
    let manual: Vec<i64> = s.iter().map(|&x| ma.next(x)).collect();
    assert_eq!(batch, manual);
    assert_eq!(batch.len(), s.len());
}

#[test]
fn new_over_empty_and_errors() {
    let empty: Vec<i64> = Vec::new();
    assert_eq!(SMA::new_over(4, &empty).unwrap(), Vec::<i64>::new());
    // No method is constructed on empty input, even with a bad period.
    assert_eq!(SMA::new_over(0, &empty).unwrap(), Vec::<i64>::new());
    let s = vec![fp(1.0)];
    assert_eq!(SMA::new_over(0, &s), Err(Error::WrongMethodParameters));
    assert!(SMA::new(0, fp(1.0)).is_err());
    assert!(Change::new(0, fp(1.0)).is_err());
    assert!(TRIMA::new(0, fp(1.0)).is_err());
}

#[test]
fn cascade_equals_two_stage_over() {
    let s: Vec<i64> = vec![fp(1.0), fp(3.0), fp(2.0), fp(6.0), fp(0.5), fp(4.0)];
    let mut trima = TRIMA::new(3, s[0]).unwrap();
    let composite = trima.over(&s);
    let mut stage1 = SMA::new(3, s[0]).unwrap();
    let mid = stage1.over(&s);
    let mut stage2 = SMA::new(3, s[0]).unwrap();
    let two_stage = stage2.over(&mid);
    assert_eq!(composite, two_stage);
}

#[test]
fn cross_above_fires_once_on_rise() {
    let a: Vec<i64> = vec![fp(-2.0), fp(-1.0), fp(0.0), fp(1.0), fp(2.0)];
    let b = fp(0.5);
    let mut above = CrossAbove::new();
    let outs: Vec<i8> = a.iter().map(|&x| above.next(x, b)).collect();
    assert_eq!(outs, vec![0, 0, 0, 1, 0]);
    let mut under = CrossUnder::new();
    let outs_u: Vec<i8> = a.iter().map(|&x| under.next(x, b)).collect();
    assert_eq!(outs_u, vec![0, 0, 0, 0, 0]);
}

#[test]
fn cross_ties_do_not_fire() {
    let mut above = CrossAbove::new();
    // Sitting exactly on the boundary is not a cross; departing above is.
    assert_eq!(above.next(fp(1.0), fp(1.0)), 0);
    assert_eq!(above.next(fp(1.0), fp(1.0)), 0);
    assert_eq!(above.next(fp(1.5), fp(1.0)), 1);
    assert_eq!(above.next(fp(1.5), fp(1.0)), 0);
    let mut under = CrossUnder::new();
    assert_eq!(under.next(fp(1.0), fp(1.0)), 0);
    assert_eq!(under.next(fp(0.5), fp(1.0)), 1);
    assert_eq!(under.next(fp(0.5), fp(1.0)), 0);
    assert_eq!(under.next(fp(1.0), fp(1.0)), 0);
}

#[test]
fn window_push_evicts_oldest() {
    let mut w = Window::new(3, 7);
    assert_eq!(w.len(), 3);
    assert_eq!(w.push(1), 7);
    assert_eq!(w.push(2), 7);
    assert_eq!(w.push(3), 7);
    assert_eq!(w.push(4), 1);
    assert_eq!(w.push(5), 2);
    assert_eq!(w.get(0), 3);
    assert_eq!(w.get(1), 4);
    assert_eq!(w.get(2), 5);
}

#[test]
fn constant_input_is_fixed_point() {
    let v = fp(42.125);
    let mut sma = SMA::new(7, fp(1.0)).unwrap();
    let mut trima = TRIMA::new(5, fp(1.0)).unwrap();
    // Convergence within the period, then exactly constant forever.
    for _ in 0..7 {
        sma.next(v);
    }
    for _ in 0..10 {
        trima.next(v);
    }
    for _ in 0..50 {
        assert_eq!(sma.next(v), v);
        assert_eq!(trima.next(v), v);
    }
}

#[test]
fn names_and_memsize() {
    let sma = SMA::new(3, fp(1.0)).unwrap();
    let trima = TRIMA::new(3, fp(1.0)).unwrap();
    let ch = Change::new(3, fp(1.0)).unwrap();
    assert_eq!(sma.name(), "SMA");
    assert_eq!(trima.name(), "TRIMA");
    assert_eq!(ch.name(), "Change");
    let (size, align) = sma.memsize();
    assert!(size > 0 && align > 0);
}
