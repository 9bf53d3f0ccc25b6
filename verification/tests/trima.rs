//! Tests of the triangular moving average against a naive two-stage
//! recomputation, and its constant and identity behaviour.

use yata::method::Method;
use yata::trima::TRIMA;

/// Fixed-point units per 1.0.
const ONE: f64 = 1_000_000.0;

fn fp(x: f64) -> i64 {
    (x * ONE).round() as i64
}

/// Deterministic pseudo-random positive series in fixed-point units.
fn gen_series(n: usize) -> Vec<i64> {
    let mut state: u64 = 0x2545_F491_4F6C_DD1D;
    let mut out = Vec::new();
    for _ in 0..n {
        state = state
            .wrapping_mul(6_364_136_223_846_793_005)
            .wrapping_add(1_442_695_040_888_963_407);
        let v = (state >> 33) % 200_000_000;
        out.push(v as i64 + 1_000_000);
    }
    out
}

#[test]
fn test_trima_const() {
    for i in 1..30u8 {
        let input = fp((i as f64 + 56.0) / 16.3251);
        let mut method = TRIMA::new(i, input).unwrap();

        let output = method.next(input);
        assert_eq!(output, input);
        for _ in 0..40 {
            assert_eq!(method.next(input), output);
        }
    }
}

#[test]
fn test_trima1() {
    let src = gen_series(100);

    let mut ma = TRIMA::new(1, src[0]).unwrap();

    for &x in src.iter() {
        assert_eq!(ma.next(x), x);
    }
}

#[test]
fn test_trima() {
    let src = gen_series(100);

    for sma_length in 1..20u8 {
        let mut ma = TRIMA::new(sma_length, src[0]).unwrap();
        let mut level2: Vec<i64> = Vec::new();

        for (i, &x) in src.iter().enumerate() {
            let value = ma.next(x);
            let slice_from = i.saturating_sub((sma_length - 1) as usize);
            let slice_to = i;
            let slice = &src[slice_from..=slice_to];

            let mut sum: i64 = slice.iter().sum();
            if slice.len() < sma_length as usize {
                sum += (sma_length as usize - slice.len()) as i64 * src[0];
            }

            level2.push(sum / sma_length as i64);

            let mut sum2: i64 = level2.iter().rev().take(sma_length as usize).sum();
            if level2.len() < sma_length as usize {
                sum2 += (sma_length as usize - level2.len()) as i64 * src[0];
            }

            assert_eq!(sum2 / sma_length as i64, value);
        }
    }
}
