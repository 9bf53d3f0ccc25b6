//! Verified parsing of parameter strings for the dynamic reconfiguration
//! path: unsigned integers (periods) and signed fixed-point decimals
//! (zones), both specified exactly over the string's bytes.

use vstd::prelude::*;
use crate::types::{SCALE_ONE, Source};
use vstd::string::StringSliceAdditionalSpecFns;

verus! {

/// ASCII decimal digit.
pub open spec fn is_digit(c: u8) -> bool {
    48 <= c <= 57
}

/// Every byte is an ASCII digit.
pub open spec fn all_digits(s: Seq<u8>) -> bool {
    forall|i: int| 0 <= i < s.len() ==> is_digit(#[trigger] s[i])
}

/// Value of a digit string read in base ten.
pub open spec fn dec_val(s: Seq<u8>) -> int
    decreases s.len(),
{
    if s.len() == 0 {
        0
    } else {
        dec_val(s.drop_last()) * 10 + (s.last() - 48)
    }
}

/// Ten to the `k`-th power.
pub open spec fn tens(k: nat) -> int
    decreases k,
{
    if k == 0 {
        1
    } else {
        10 * tens((k - 1) as nat)
    }
}

/// Index where the digit run starting at `i` ends.
pub open spec fn run_end(s: Seq<u8>, i: int) -> int
    recommends
        0 <= i <= s.len(),
    decreases s.len() - i,
{
    if i < 0 || i >= s.len() || !is_digit(s[i]) {
        i
    } else {
        run_end(s, i + 1)
    }
}

/// A digit string has a nonnegative value.
pub proof fn lemma_dec_val_nonneg(s: Seq<u8>)
    requires
        all_digits(s),
    ensures
        dec_val(s) >= 0,
    decreases s.len(),
{
    if s.len() > 0 {
        assert(forall|i: int|
            0 <= i < s.drop_last().len() ==> is_digit(#[trigger] s.drop_last()[i]));
        lemma_dec_val_nonneg(s.drop_last());
        assert(is_digit(s[s.len() - 1]));
    }
}

/// Reading one more digit cannot shrink the value.
pub proof fn lemma_dec_val_prefix(s: Seq<u8>, k: int)
    requires
        all_digits(s),
        0 <= k <= s.len(),
    ensures
        dec_val(s.take(k)) <= dec_val(s),
    decreases s.len() - k,
{
    if k < s.len() {
        assert(forall|i: int|
            0 <= i < s.take(k + 1).len() ==> is_digit(#[trigger] s.take(k + 1)[i]));
        assert(s.take(k + 1).drop_last() =~= s.take(k));
        assert(s.take(k + 1).last() == s[k]);
        assert(forall|i: int| 0 <= i < s.take(k).len() ==> is_digit(#[trigger] s.take(k)[i]));
        lemma_dec_val_nonneg(s.take(k));
        assert(is_digit(s[k]));
        assert(dec_val(s.take(k + 1)) == dec_val(s.take(k)) * 10 + (s[k] - 48));
        assert(dec_val(s.take(k)) * 10 >= dec_val(s.take(k))) by (nonlinear_arith)
            requires
                dec_val(s.take(k)) >= 0,
        ;
        lemma_dec_val_prefix(s, k + 1);
    } else {
        assert(s.take(k) =~= s);
    }
}

/// The bytes of a digit run are digits, and the run is maximal.
pub proof fn lemma_run_end_props(s: Seq<u8>, i: int)
    requires
        0 <= i <= s.len(),
    ensures
        i <= run_end(s, i) <= s.len(),
        forall|j: int| i <= j < run_end(s, i) ==> is_digit(#[trigger] s[j]),
        run_end(s, i) < s.len() ==> !is_digit(s[run_end(s, i)]),
    decreases s.len() - i,
{
    if i < s.len() && is_digit(s[i]) {
        lemma_run_end_props(s, i + 1);
    }
}

/// Scan the maximal digit run of `b` starting at `start`, refusing values
/// above `cap`. Returns the value and the end of the run, or nothing when
/// the run's value exceeds `cap`.
fn scan_digits(b: &[u8], start: usize, cap: i64) -> (r: Option<(i64, usize)>)
    requires
        0 <= cap <= 1_000_000_000,
        start <= b@.len(),
    ensures
        ({
            let e = run_end(b@, start as int);
            match r {
                Option::Some(p) => p.1 == e && p.0 == dec_val(b@.subrange(start as int, e))
                    && 0 <= p.0 <= cap && start <= p.1 <= b@.len(),
                Option::None => dec_val(b@.subrange(start as int, e)) > cap,
            }
        }),
{
    proof {
        lemma_run_end_props(b@, start as int);
    }
    let n = b.len();
    let mut i = start;
    let mut acc: i64 = 0;
    loop
        invariant
            start <= i <= n,
            n == b@.len(),
            0 <= cap <= 1_000_000_000,
            i <= run_end(b@, start as int) <= n,
            forall|j: int|
                start <= j < run_end(b@, start as int) ==> is_digit(#[trigger] b@[j]),
            run_end(b@, start as int) < n ==> !is_digit(b@[run_end(b@, start as int)]),
            0 <= acc <= cap,
            acc == dec_val(b@.subrange(start as int, i as int)),
            forall|j: int| start <= j < i ==> is_digit(#[trigger] b@[j]),
        decreases n - i,
    {
        let ghost e = run_end(b@, start as int);
        if i == n || !(b[i] >= 48 && b[i] <= 57) {
            proof {
                assert(i == e) by {
                    if i < e {
                        assert(is_digit(b@[i as int]));
                    }
                    if e < i {
                        assert(is_digit(b@[e]));
                    }
                };
            }
            return Some((acc, i));
        }
        let d = b[i] - 48;
        proof {
            assert(i < e) by {
                if e <= i {
                    assert(!is_digit(b@[e]));
                }
            };
            assert(b@.subrange(start as int, i + 1 as int).drop_last() =~= b@.subrange(
                start as int,
                i as int,
            ));
            assert(b@.subrange(start as int, i + 1 as int).last() == b@[i as int]);
        }
        let next = acc * 10 + (d as i64);
        proof {
            assert(next == dec_val(b@.subrange(start as int, i + 1 as int)));
        }
        if next > cap {
            proof {
                let run = b@.subrange(start as int, e);
                assert(forall|j: int| 0 <= j < run.len() ==> is_digit(#[trigger] run[j]));
                assert(run.take(i + 1 - start) =~= b@.subrange(start as int, i + 1 as int));
                lemma_dec_val_prefix(run, i + 1 - start);
            }
            return None;
        }
        acc = next;
        i = i + 1;
    }
}

/// Exact parse of an unsigned integer parameter as Rust's `u8` parser
/// accepts it: an optional leading `+`, then one or more digits, with a
/// value of at most `u8::MAX`.
pub open spec fn u8_parse(s: Seq<u8>) -> Option<u8> {
    let t = if s.len() > 0 && s[0] == 43 {
        s.drop_first()
    } else {
        s
    };
    if t.len() >= 1 && all_digits(t) && dec_val(t) <= 255 {
        Option::Some(dec_val(t) as u8)
    } else {
        Option::None
    }
}

/// Parse an unsigned integer parameter, exactly along [`u8_parse`].
pub fn parse_u8(s: &str) -> (r: Option<u8>)
    ensures
        r == u8_parse(s.spec_bytes()),
{
    let b = s.as_bytes();
    let n = b.len();
    let start: usize = if n > 0 && b[0] == 43 {
        1
    } else {
        0
    };
    let ghost t = if start == 1 {
        b@.drop_first()
    } else {
        b@
    };
    proof {
        assert(t =~= b@.subrange(start as int, n as int));
        lemma_run_end_props(b@, start as int);
    }
    match scan_digits(b, start, 255) {
        Some((v, end)) => {
            if end == n && end > start {
                proof {
                    assert(t =~= b@.subrange(start as int, n as int));
                }
                Some(v as u8)
            } else {
                proof {
                    let e = run_end(b@, start as int);
                    if end == start {
                        if t.len() >= 1 && all_digits(t) {
                            assert(start < n);
                            assert(t[0] == b@[start as int]);
                            assert(is_digit(t[0]));
                        }
                    } else {
                        if all_digits(t) {
                            assert(e < n && !is_digit(b@[e]));
                            assert(is_digit(t[e - start]));
                        }
                    }
                }
                None
            }
        },
        None => {
            proof {
                let e = run_end(b@, start as int);
                if t.len() >= 1 && all_digits(t) && dec_val(t) <= 255 {
                    assert forall|j: int| start <= j < n implies is_digit(#[trigger] b@[j]) by {
                        assert(t[j - start] == b@[j]);
                    };
                    assert(e == n) by {
                        if e < n {
                            assert(!is_digit(b@[e]));
                        }
                    };
                    assert(t =~= b@.subrange(start as int, e));
                }
            }
            None
        },
    }
}

/// Largest whole-unit part a fixed-point parameter may carry: values
/// parse up to (but not including) one million whole units, the library's
/// observation bound.
pub open spec fn fixed_int_cap() -> int {
    999_999
}

/// Exact parse of a signed fixed-point decimal parameter: an optional
/// sign, one or more integer digits valuing at most [`fixed_int_cap`],
/// then optionally a dot and one to six fraction digits.
pub open spec fn fixed_parse(s: Seq<u8>) -> Option<i64> {
    let neg = s.len() > 0 && s[0] == 45;
    let t = if s.len() > 0 && (s[0] == 45 || s[0] == 43) {
        s.drop_first()
    } else {
        s
    };
    let e = run_end(t, 0);
    if e < 1 || dec_val(t.take(e)) > fixed_int_cap() {
        Option::None
    } else if e == t.len() {
        let mag = dec_val(t.take(e)) * SCALE_ONE;
        Option::Some((if neg { -mag } else { mag }) as i64)
    } else if t[e] == 46 && 1 <= t.len() - e - 1 <= 6 && all_digits(t.skip(e + 1)) {
        let frac = t.skip(e + 1);
        let mag = dec_val(t.take(e)) * SCALE_ONE + dec_val(frac) * tens((6 - frac.len()) as nat);
        Option::Some((if neg { -mag } else { mag }) as i64)
    } else {
        Option::None
    }
}

/// Powers of ten up to one million, as executable values.
fn tens_exec(k: usize) -> (r: i64)
    requires
        k <= 6,
    ensures
        r == tens(k as nat),
        1 <= r <= 1_000_000,
{
    let r: i64 = if k == 0 {
        1
    } else if k == 1 {
        10
    } else if k == 2 {
        100
    } else if k == 3 {
        1_000
    } else if k == 4 {
        10_000
    } else if k == 5 {
        100_000
    } else {
        1_000_000
    };
    proof {
        assert(tens(0) == 1);
        assert(tens(1) == 10);
        assert(tens(2) == 100);
        assert(tens(3) == 1000);
        assert(tens(4) == 10000);
        assert(tens(5) == 100000);
        assert(tens(6) == 1000000);
    }
    r
}

/// Parse a signed fixed-point decimal parameter, exactly along
/// [`fixed_parse`]. A successful parse is at most one million whole units
/// in magnitude, so the result is always an admissible value.
pub fn parse_fixed(s: &str) -> (r: Option<i64>)
    ensures
        r == fixed_parse(s.spec_bytes()),
        r is Some ==> crate::types::in_range(r->0),
{
    let b = s.as_bytes();
    let n = b.len();
    let neg = n > 0 && b[0] == 45;
    let start: usize = if n > 0 && (b[0] == 45 || b[0] == 43) {
        1
    } else {
        0
    };
    let ghost t = if start == 1 {
        b@.drop_first()
    } else {
        b@
    };
    proof {
        assert(t =~= b@.subrange(start as int, n as int));
        lemma_run_end_shift(b@, start as int);
        lemma_run_end_props(b@, start as int);
    }
    let ip = match scan_digits(b, start, 999_999) {
        Some((v, end)) => {
            if end == start {
                proof {
                    assert(run_end(t, 0) == 0);
                }
                return None;
            }
            (v, end)
        },
        None => {
            proof {
                assert(t.take(run_end(t, 0)) =~= b@.subrange(
                    start as int,
                    run_end(b@, start as int),
                ));
            }
            return None;
        },
    };
    let (ip_val, ip_end) = ip;
    proof {
        assert(run_end(t, 0) == ip_end - start);
        assert(t.take(ip_end - start) =~= b@.subrange(start as int, ip_end as int));
    }
    if ip_end == n {
        proof {
            assert(ip_val * SCALE_ONE <= 999_999 * 1_000_000i64 && 0 <= ip_val * SCALE_ONE)
                by (nonlinear_arith)
                requires
                    0 <= ip_val <= 999_999 && SCALE_ONE == 1_000_000,
            ;
        }
        let mag = ip_val * SCALE_ONE;
        return Some(if neg { -mag } else { mag });
    }
    if b[ip_end] != 46 {
        return None;
    }
    let fstart = ip_end + 1;
    proof {
        lemma_run_end_props(b@, fstart as int);
    }
    match scan_digits(b, fstart, 999_999) {
        Some((fv, fend)) => {
            let flen = fend - fstart;
            if fend == n && flen >= 1 && flen <= 6 {
                proof {
                    assert(t.skip(ip_end - start + 1) =~= b@.subrange(fstart as int, n as int));
                    assert(b@.subrange(fstart as int, fend as int) =~= b@.subrange(
                        fstart as int,
                        n as int,
                    ));
                }
                let scale = tens_exec(6 - flen);
                proof {
                    lemma_frac_bound(b@.subrange(fstart as int, fend as int), scale as int);
                    assert(0 <= fv * scale < 1_000_000i64);
                    assert(ip_val * 1_000_000 <= 999_999 * 1_000_000i64 && 0 <= ip_val
                        * 1_000_000) by (nonlinear_arith)
                        requires
                            0 <= ip_val <= 999_999,
                    ;
                }
                let frac_part = fv * scale;
                let mag = ip_val * 1_000_000 + frac_part;
                Some(if neg { -mag } else { mag })
            } else {
                proof {
                    let frac = t.skip(ip_end - start + 1);
                    assert(frac =~= b@.subrange(fstart as int, n as int));
                    if 1 <= frac.len() <= 6 && all_digits(frac) {
                        assert(run_end(b@, fstart as int) == n) by {
                            let e2 = run_end(b@, fstart as int);
                            if e2 < n {
                                assert(!is_digit(b@[e2]));
                                assert(is_digit(frac[e2 - fstart]));
                            }
                        };
                    }
                }
                None
            }
        },
        None => {
            proof {
                let frac = t.skip(ip_end - start + 1);
                assert(frac =~= b@.subrange(fstart as int, n as int));
                if 1 <= frac.len() <= 6 && all_digits(frac) {
                    assert(run_end(b@, fstart as int) == n) by {
                        let e2 = run_end(b@, fstart as int);
                        if e2 < n {
                            assert(!is_digit(b@[e2]));
                            assert(is_digit(frac[e2 - fstart]));
                        }
                    };
                    assert(b@.subrange(fstart as int, n as int).take(n - fstart) =~= b@.subrange(
                        fstart as int,
                        n as int,
                    ));
                    lemma_dec_val_cap_small(frac);
                }
            }
            None
        },
    }
}

/// A fraction of at most six digits values below one whole unit.
proof fn lemma_dec_val_cap_small(s: Seq<u8>)
    requires
        all_digits(s),
        s.len() <= 6,
    ensures
        dec_val(s) <= 999_999,
{
    lemma_dec_val_len_bound(s);
    lemma_tens_values();
    assert(tens(s.len()) <= 1_000_000) by {
        if s.len() == 0 {
        } else if s.len() == 1 {
        } else if s.len() == 2 {
        } else if s.len() == 3 {
        } else if s.len() == 4 {
        } else if s.len() == 5 {
        } else {
            assert(s.len() == 6);
        }
    };
}

/// The powers of ten up to one million, unfolded.
proof fn lemma_tens_values()
    ensures
        tens(0) == 1,
        tens(1) == 10,
        tens(2) == 100,
        tens(3) == 1000,
        tens(4) == 10000,
        tens(5) == 100000,
        tens(6) == 1_000_000,
{
    assert(tens(0) == 1);
    assert(tens(1) == 10);
    assert(tens(2) == 100);
    assert(tens(3) == 1000);
    assert(tens(4) == 10000);
    assert(tens(5) == 100000);
    assert(tens(6) == 1_000_000);
}

/// Ten to any power is positive.
proof fn lemma_tens_pos(k: nat)
    ensures
        tens(k) >= 1,
    decreases k,
{
    if k > 0 {
        lemma_tens_pos((k - 1) as nat);
    }
}

/// A digit string of `k` digits values below ten to the `k`.
proof fn lemma_dec_val_len_bound(s: Seq<u8>)
    requires
        all_digits(s),
    ensures
        dec_val(s) < tens(s.len()),
    decreases s.len(),
{
    if s.len() > 0 {
        assert(forall|i: int|
            0 <= i < s.drop_last().len() ==> is_digit(#[trigger] s.drop_last()[i]));
        lemma_dec_val_len_bound(s.drop_last());
        assert(is_digit(s.last()));
        assert(dec_val(s.drop_last()) * 10 + 9 < tens(s.len())) by (nonlinear_arith)
            requires
                dec_val(s.drop_last()) < tens((s.len() - 1) as nat),
                tens(s.len() as nat) == 10 * tens((s.len() - 1) as nat),
        ;
    }
}

/// A fraction scaled into the remaining decimal places stays below one
/// whole unit.
proof fn lemma_frac_bound(s: Seq<u8>, scale: int)
    requires
        all_digits(s),
        1 <= s.len() <= 6,
        scale == tens((6 - s.len()) as nat),
    ensures
        0 <= dec_val(s) * scale < 1_000_000,
{
    lemma_dec_val_len_bound(s);
    lemma_dec_val_nonneg(s);
    lemma_tens_pos((6 - s.len()) as nat);
    lemma_tens_split(s.len() as nat);
    assert(dec_val(s) * scale < tens(s.len() as nat) * scale) by (nonlinear_arith)
        requires
            dec_val(s) < tens(s.len() as nat) && scale >= 1,
    ;
    assert(dec_val(s) * scale >= 0) by (nonlinear_arith)
        requires
            dec_val(s) >= 0 && scale >= 1,
    ;
}

/// Ten to the six splits across a fraction's digits and its scale.
proof fn lemma_tens_split(k: nat)
    requires
        k <= 6,
    ensures
        tens(k) * tens((6 - k) as nat) == 1_000_000,
    decreases k,
{
    if k == 0 {
        assert(tens(0) == 1);
        assert(tens(1) == 10);
        assert(tens(2) == 100);
        assert(tens(3) == 1000);
        assert(tens(4) == 10000);
        assert(tens(5) == 100000);
        assert(tens(6) == 1_000_000);
    } else {
        lemma_tens_split((k - 1) as nat);
        assert(tens(k) == 10 * tens((k - 1) as nat));
        assert((10 * tens((k - 1) as nat)) * tens((6 - k) as nat) == 10 * (tens((k - 1) as nat)
            * tens((6 - k) as nat))) by (nonlinear_arith);
        assert(tens((6 - (k - 1)) as nat) == 10 * tens((6 - k) as nat));
        assert(tens((k - 1) as nat) * (10 * tens((6 - k) as nat)) == 10 * (tens((k - 1) as nat)
            * tens((6 - k) as nat))) by (nonlinear_arith);
    }
}

/// A digit run inside a dropped-prefix view ends where the underlying
/// run ends.
proof fn lemma_run_end_shift(s: Seq<u8>, start: int)
    requires
        0 <= start <= s.len(),
    ensures
        ({
            let t = s.subrange(start, s.len() as int);
            forall|i: int|
                0 <= i <= t.len() ==> #[trigger] run_end(t, i) == run_end(s, i + start) - start
        }),
{
    let t = s.subrange(start, s.len() as int);
    assert forall|i: int| 0 <= i <= t.len() implies #[trigger] run_end(t, i) == run_end(
        s,
        i + start,
    ) - start by {
        lemma_run_end_shift_one(s, start, i);
    }
}

/// One index of [`lemma_run_end_shift`], by induction from the tail.
proof fn lemma_run_end_shift_one(s: Seq<u8>, start: int, i: int)
    requires
        0 <= start <= s.len(),
        0 <= i <= s.len() - start,
    ensures
        run_end(s.subrange(start, s.len() as int), i) == run_end(s, i + start) - start,
    decreases s.len() - start - i,
{
    let t = s.subrange(start, s.len() as int);
    if i < t.len() && is_digit(t[i]) {
        lemma_run_end_shift_one(s, start, i + 1);
    }
}

/// The parameter name `period`, as bytes.
pub open spec fn kw_period() -> Seq<u8> {
    seq![112u8, 101u8, 114u8, 105u8, 111u8, 100u8]
}

/// The parameter name `zone`, as bytes.
pub open spec fn kw_zone() -> Seq<u8> {
    seq![122u8, 111u8, 110u8, 101u8]
}

/// The parameter name `source`, as bytes.
pub open spec fn kw_source() -> Seq<u8> {
    seq![115u8, 111u8, 117u8, 114u8, 99u8, 101u8]
}

/// The source name `open`, as bytes.
pub open spec fn kw_open() -> Seq<u8> {
    seq![111u8, 112u8, 101u8, 110u8]
}

/// The source name `high`, as bytes.
pub open spec fn kw_high() -> Seq<u8> {
    seq![104u8, 105u8, 103u8, 104u8]
}

/// The source name `low`, as bytes.
pub open spec fn kw_low() -> Seq<u8> {
    seq![108u8, 111u8, 119u8]
}

/// The source name `close`, as bytes.
pub open spec fn kw_close() -> Seq<u8> {
    seq![99u8, 108u8, 111u8, 115u8, 101u8]
}

/// The source name `volume`, as bytes.
pub open spec fn kw_volume() -> Seq<u8> {
    seq![118u8, 111u8, 108u8, 117u8, 109u8, 101u8]
}

/// Byte-wise equality of two slices.
pub fn bytes_match(b: &[u8], pat: &[u8]) -> (r: bool)
    ensures
        r <==> b@ == pat@,
{
    let n = b.len();
    if n != pat.len() {
        return false;
    }
    let mut i: usize = 0;
    while i < n
        invariant
            i <= n,
            n == b@.len(),
            n == pat@.len(),
            forall|j: int| 0 <= j < i ==> b@[j] == pat@[j],
        decreases n - i,
    {
        if b[i] != pat[i] {
            return false;
        }
        i += 1;
    }
    proof {
        assert(b@ =~= pat@);
    }
    true
}

/// Exact parse of a source name: one of `open`, `high`, `low`, `close`,
/// `volume`.
pub open spec fn source_parse(s: Seq<u8>) -> Option<Source> {
    if s == kw_open() {
        Option::Some(Source::Open)
    } else if s == kw_high() {
        Option::Some(Source::High)
    } else if s == kw_low() {
        Option::Some(Source::Low)
    } else if s == kw_close() {
        Option::Some(Source::Close)
    } else if s == kw_volume() {
        Option::Some(Source::Volume)
    } else {
        Option::None
    }
}

/// Parse a source name, exactly along [`source_parse`].
pub fn parse_source(s: &str) -> (r: Option<Source>)
    ensures
        r == source_parse(s.spec_bytes()),
{
    let b = s.as_bytes();
    let mut pat: Vec<u8> = Vec::new();
    pat.push(111);
    pat.push(112);
    pat.push(101);
    pat.push(110);
    proof {
        assert(pat@ =~= kw_open());
    }
    if bytes_match(b, pat.as_slice()) {
        return Some(Source::Open);
    }
    let mut pat: Vec<u8> = Vec::new();
    pat.push(104);
    pat.push(105);
    pat.push(103);
    pat.push(104);
    proof {
        assert(pat@ =~= kw_high());
    }
    if bytes_match(b, pat.as_slice()) {
        return Some(Source::High);
    }
    let mut pat: Vec<u8> = Vec::new();
    pat.push(108);
    pat.push(111);
    pat.push(119);
    proof {
        assert(pat@ =~= kw_low());
    }
    if bytes_match(b, pat.as_slice()) {
        return Some(Source::Low);
    }
    let mut pat: Vec<u8> = Vec::new();
    pat.push(99);
    pat.push(108);
    pat.push(111);
    pat.push(115);
    pat.push(101);
    proof {
        assert(pat@ =~= kw_close());
    }
    if bytes_match(b, pat.as_slice()) {
        return Some(Source::Close);
    }
    let mut pat: Vec<u8> = Vec::new();
    pat.push(118);
    pat.push(111);
    pat.push(108);
    pat.push(117);
    pat.push(109);
    pat.push(101);
    proof {
        assert(pat@ =~= kw_volume());
    }
    if bytes_match(b, pat.as_slice()) {
        return Some(Source::Volume);
    }
    None
}

/// Byte-wise equality of a runtime name against a keyword.
pub fn name_matches(b: &[u8], kind: u8) -> (r: bool)
    requires
        kind < 3,
    ensures
        kind == 0 ==> (r <==> b@ == kw_period()),
        kind == 1 ==> (r <==> b@ == kw_zone()),
        kind == 2 ==> (r <==> b@ == kw_source()),
{
    let mut pat: Vec<u8> = Vec::new();
    if kind == 0 {
        pat.push(112);
        pat.push(101);
        pat.push(114);
        pat.push(105);
        pat.push(111);
        pat.push(100);
        proof {
            assert(pat@ =~= kw_period());
        }
    } else if kind == 1 {
        pat.push(122);
        pat.push(111);
        pat.push(110);
        pat.push(101);
        proof {
            assert(pat@ =~= kw_zone());
        }
    } else {
        pat.push(115);
        pat.push(111);
        pat.push(117);
        pat.push(114);
        pat.push(99);
        pat.push(101);
        proof {
            assert(pat@ =~= kw_source());
        }
    }
    bytes_match(b, pat.as_slice())
}


} // verus!
