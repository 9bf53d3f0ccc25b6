//! Chande Momentum Oscillator.
//!
//! Maintains a one-tick change stream feeding positive and negative
//! running sums over a window of width `period` (updated incrementally
//! through the window's evicted-value contract, never rescanned), computes
//! the bounded ratio `(pos - neg) / (pos + neg)` from the two sums, and
//! feeds the ratio into two symmetric zone-crossing detectors. A cross
//! under `-zone` is a buy signal (`1`), a cross above `+zone` a sell
//! signal (`-1`); otherwise the signal is `0`.

use vstd::prelude::*;
use vstd::string::StringSliceAdditionalSpecFns;
use vstd::utf8::encode_utf8;
use crate::types::{
    Error, Source, Candle, IndicatorResult, SCALE_ONE, VAL_MAX, in_range2, candle_in_range,
    source_of,
};
use crate::math::{
    div_trunc_i128, div_trunc_spec, sum_map, lemma_sum_map_slide, lemma_sum_map_const,
    lemma_sum_map_bounds, lemma_div_trunc_quotient_bound, abs_int,
};
use crate::window::Window;
use crate::method::Method;
use crate::change::{Change, change_step, change_out, lemma_change_inv_model};
use crate::cross::{CrossAbove, CrossUnder, cross_above_fire, cross_under_fire};
use crate::parse::{u8_parse, fixed_parse, source_parse, kw_period, kw_zone, kw_source,
    parse_u8, parse_fixed, parse_source, name_matches};

verus! {

/// Positive part of a change: the change itself when rising, else zero.
pub open spec fn pos_part(x: i64) -> i64 {
    if x > 0 {
        x
    } else {
        0
    }
}

/// Negative part of a change: its magnitude when falling, else zero.
pub open spec fn neg_part(x: i64) -> i64 {
    if x < 0 {
        (-(x as int)) as i64
    } else {
        0
    }
}

/// The positive-part measure summed over the change window.
pub open spec fn pos_measure() -> spec_fn(i64) -> int {
    |x: i64| pos_part(x) as int
}

/// The negative-part measure summed over the change window.
pub open spec fn neg_measure() -> spec_fn(i64) -> int {
    |x: i64| neg_part(x) as int
}

/// Split a change into its positive and negative parts.
pub fn change(c: i64) -> (r: (i64, i64))
    requires
        c > i64::MIN,
    ensures
        r.0 == pos_part(c),
        r.1 == neg_part(c),
        r.0 >= 0,
        r.1 >= 0,
{
    let pos = if c > 0 {
        c
    } else {
        0
    };
    let neg = if c < 0 {
        -c
    } else {
        0
    };
    (pos, neg)
}

/// The oscillator configuration is valid: the zone lies between `0` and
/// `1` (in fixed-point units) and the period is at least `2`.
pub open spec fn cmo_valid(c: ChandeMomentumOscillator) -> bool {
    0 <= c.zone <= SCALE_ONE && c.period > 1
}

/// Mathematical model of a live oscillator: the change method's window,
/// the window of recent changes, and the two detectors' previous pairs.
pub struct CmoModel {
    pub prev: Seq<i64>,
    pub window: Seq<i64>,
    pub above: Option<(i64, i64)>,
    pub under: Option<(i64, i64)>,
}

/// Model of a freshly initialized oscillator: the change method seeded
/// with the first observation, an all-zero change window, and detectors
/// that have seen no pair.
pub open spec fn cmo_init(src: i64, period: u8) -> CmoModel {
    CmoModel {
        prev: seq![src],
        window: Seq::new(period as nat, |i: int| 0i64),
        above: Option::None,
        under: Option::None,
    }
}

/// The oscillator ratio of a change window: `(pos - neg) / (pos + neg)`
/// in fixed-point units, and the neutral `0` when both running sums are
/// zero.
pub open spec fn cmo_value(w: Seq<i64>) -> i64 {
    let pos = sum_map(w, pos_measure());
    let neg = sum_map(w, neg_measure());
    if pos != 0 || neg != 0 {
        div_trunc_spec((pos - neg) * SCALE_ONE, pos + neg) as i64
    } else {
        0
    }
}

/// The oscillator ratio of a change window lies in the unit range
/// `[-1; 1]` in fixed-point units: both running sums are nonnegative, so
/// their difference never exceeds their sum in magnitude. The window may
/// hold any representable changes (a difference of two admissible
/// observations never reaches the smallest `i64`).
pub proof fn lemma_cmo_value_in_unit(w: Seq<i64>)
    requires
        forall|i: int| 0 <= i < w.len() ==> #[trigger] w[i] > i64::MIN,
    ensures
        -SCALE_ONE <= cmo_value(w) <= SCALE_ONE,
{
    assert(forall|i: int| 0 <= i < w.len() ==> 0 <= #[trigger] pos_measure()(w[i]));
    assert(forall|i: int| 0 <= i < w.len() ==> 0 <= #[trigger] neg_measure()(w[i]));
    crate::math::lemma_sum_map_nonneg(w, pos_measure());
    crate::math::lemma_sum_map_nonneg(w, neg_measure());
    let pos = sum_map(w, pos_measure());
    let neg = sum_map(w, neg_measure());
    if pos != 0 || neg != 0 {
        assert(abs_int(pos - neg) <= pos + neg);
        assert(abs_int((pos - neg) * SCALE_ONE) <= (pos + neg) * SCALE_ONE) by (nonlinear_arith)
            requires
                abs_int(pos - neg) <= pos + neg,
                SCALE_ONE > 0,
        ;
        lemma_div_trunc_quotient_bound((pos - neg) * SCALE_ONE, pos + neg, SCALE_ONE as int);
    }
}

/// One tick of the oscillator: the next model, the ratio value, and the
/// signal (`1` buy on a cross under `-zone`, `-1` sell on a cross above
/// `+zone`, else `0`).
pub open spec fn cmo_tick(m: CmoModel, zone: i64, src: i64) -> (CmoModel, i64, i8) {
    let ch = change_out(m.prev, src);
    let w2 = m.window.drop_first().push(ch);
    let value = cmo_value(w2);
    let nzone = (-(zone as int)) as i64;
    let uf = cross_under_fire(m.under, value, nzone);
    let af = cross_above_fire(m.above, value, zone);
    let signal = ((if uf {
        1int
    } else {
        0int
    }) - (if af {
        1int
    } else {
        0int
    })) as i8;
    (
        CmoModel {
            prev: change_step(m.prev, src),
            window: w2,
            above: Option::Some((value, zone)),
            under: Option::Some((value, nzone)),
        },
        value,
        signal,
    )
}

/// Chande Momentum Oscillator configuration: one value (the oscillator
/// ratio, in `[-1; 1]` fixed-point) and one signal per tick.
#[derive(Debug, Clone, Copy, PartialEq, Eq, Structural)]
pub struct ChandeMomentumOscillator {
    /// Main period length. Default is `9`; must be at least `2`.
    pub period: u8,
    /// Zone size of overbought and oversold, in fixed-point units.
    /// Default is one half; must lie in `[0; 1]`.
    pub zone: i64,
    /// Source field of the candle to read. Default is close.
    pub source: Source,
}

impl ChandeMomentumOscillator {
    /// The indicator's display name.
    pub fn name(&self) -> (r: &'static str)
        ensures
            r@ == "ChandeMomentumOscillator"@,
    {
        "ChandeMomentumOscillator"
    }

    /// The validation predicate checked by `init`.
    pub fn validate(&self) -> (r: bool)
        ensures
            r == cmo_valid(*self),
    {
        self.zone >= 0 && self.zone <= SCALE_ONE && self.period > 1
    }

    /// Validate the configuration and construct a live instance seeded
    /// from the first candle. Fails with `WrongConfig` exactly when
    /// validation fails; no instance is produced then.
    pub fn init(self, candle: &Candle) -> (r: Result<
        ChandeMomentumOscillatorInstance,
        Error,
    >)
        requires
            candle_in_range(*candle),
        ensures
            r is Ok <==> cmo_valid(self),
            r is Ok ==> (r->Ok_0).inv() && (r->Ok_0).config_spec() == self && (r->Ok_0).m()
                == cmo_init(source_of(*candle, self.source), self.period),
            r is Err ==> r->Err_0 == Error::WrongConfig,
    {
        if !self.validate() {
            return Err(Error::WrongConfig);
        }
        let src = candle.source(self.source);
        let change_m = match Change::new(1, src) {
            Ok(c) => c,
            Err(_) => {
                proof {
                    assert(false);
                }
                return Err(Error::WrongConfig);
            },
        };
        let window = Window::new(self.period as usize, 0);
        proof {
            lemma_sum_map_const(window@, pos_measure(), 0);
            lemma_sum_map_const(window@, neg_measure(), 0);
            assert(change_m.m() =~= seq![src]);
            assert(window@ =~= Seq::new(self.period as nat, |i: int| 0i64));
        }
        Ok(
            ChandeMomentumOscillatorInstance {
                cfg: self,
                pos_sum: 0,
                neg_sum: 0,
                change: change_m,
                window,
                cross_under: CrossUnder::new(),
                cross_above: CrossAbove::new(),
            },
        )
    }

    /// Set the field named `name` from a parameter string. Fails with a
    /// `ParameterParse` error carrying the name and the raw string when
    /// the name is unknown or the string does not parse; the
    /// configuration is unchanged then.
    pub fn set(&mut self, name: &str, value: String) -> (r: Result<(), Error>)
        ensures
            ({
                let nb = name.spec_bytes();
                let vb = encode_utf8(value@);
                &&& (r is Ok <==> ((nb == kw_period() && u8_parse(vb) is Some) || (nb
                    == kw_zone() && fixed_parse(vb) is Some) || (nb == kw_source()
                    && source_parse(vb) is Some)))
                &&& (nb == kw_period() && u8_parse(vb) is Some ==> *final(self)
                    == (ChandeMomentumOscillator {
                    period: u8_parse(vb)->0,
                    ..*old(self)
                }))
                &&& (nb == kw_zone() && fixed_parse(vb) is Some ==> *final(self)
                    == (ChandeMomentumOscillator { zone: fixed_parse(vb)->0, ..*old(self) }))
                &&& (nb == kw_source() && source_parse(vb) is Some ==> *final(self)
                    == (ChandeMomentumOscillator {
                    source: source_parse(vb)->0,
                    ..*old(self)
                }))
                &&& (r is Err ==> *final(self) == *old(self) && r->Err_0 is ParameterParse
                    && (r->Err_0)->ParameterParse_0@ == name@ && (r->Err_0)->ParameterParse_1@
                    == value@)
            }),
    {
        let b = name.as_bytes();
        if name_matches(b, 0) {
            match parse_u8(value.as_str()) {
                Some(p) => {
                    self.period = p;
                    Ok(())
                },
                None => Err(Error::ParameterParse(name.to_owned(), value)),
            }
        } else if name_matches(b, 1) {
            match parse_fixed(value.as_str()) {
                Some(z) => {
                    self.zone = z;
                    Ok(())
                },
                None => Err(Error::ParameterParse(name.to_owned(), value)),
            }
        } else if name_matches(b, 2) {
            match parse_source(value.as_str()) {
                Some(s) => {
                    self.source = s;
                    Ok(())
                },
                None => Err(Error::ParameterParse(name.to_owned(), value)),
            }
        } else {
            Err(Error::ParameterParse(name.to_owned(), value))
        }
    }

    /// Width of the per-tick result: one value and one signal.
    pub fn size(&self) -> (r: (u8, u8))
        ensures
            r == (1u8, 1u8),
    {
        (1, 1)
    }
}

impl Default for ChandeMomentumOscillator {
    /// Period `9`, zone one half, close source.
    fn default() -> (r: ChandeMomentumOscillator)
        ensures
            r.period == 9,
            r.zone == 500_000,
            r.source == Source::Close,
    {
        ChandeMomentumOscillator { period: 9, zone: 500_000, source: Source::Close }
    }
}

/// A live Chande Momentum Oscillator.
#[derive(Debug, Clone)]
pub struct ChandeMomentumOscillatorInstance {
    cfg: ChandeMomentumOscillator,
    pos_sum: i64,
    neg_sum: i64,
    change: Change,
    window: Window,
    cross_under: CrossUnder,
    cross_above: CrossAbove,
}

impl ChandeMomentumOscillatorInstance {
    /// The configuration this instance was initialized from.
    pub closed spec fn config_spec(&self) -> ChandeMomentumOscillator {
        self.cfg
    }

    /// Mathematical model of the instance's state.
    pub closed spec fn m(&self) -> CmoModel {
        CmoModel {
            prev: self.change.m(),
            window: self.window@,
            above: self.cross_above.m(),
            under: self.cross_under.m(),
        }
    }

    /// Well-formedness: a valid configuration, a one-slot change window,
    /// a change window of the period's width holding bounded changes, and
    /// the two running sums exactly tracking the window's positive and
    /// negative parts.
    pub closed spec fn inv(&self) -> bool {
        &&& cmo_valid(self.cfg)
        &&& self.change.inv()
        &&& self.change.m().len() == 1
        &&& self.window.wf()
        &&& self.window@.len() == self.cfg.period
        &&& (forall|i: int| 0 <= i < self.window@.len() ==> in_range2(#[trigger] self.window@[i]))
        &&& self.pos_sum == sum_map(self.window@, pos_measure())
        &&& self.neg_sum == sum_map(self.window@, neg_measure())
    }

    /// The retained configuration.
    pub fn config(&self) -> (r: &ChandeMomentumOscillator)
        ensures
            *r == self.config_spec(),
    {
        &self.cfg
    }

    /// One tick: extract the configured source, drive the change method,
    /// the window, the running sums and both detectors exactly once, and
    /// assemble the fixed-width result, all exactly along [`cmo_tick`].
    pub fn next(&mut self, candle: &Candle) -> (r: IndicatorResult)
        requires
            old(self).inv(),
            candle_in_range(*candle),
        ensures
            final(self).inv(),
            final(self).config_spec() == old(self).config_spec(),
            final(self).m() == cmo_tick(
                old(self).m(),
                old(self).config_spec().zone,
                source_of(*candle, old(self).config_spec().source),
            ).0,
            r.values@ == seq![
                cmo_tick(
                    old(self).m(),
                    old(self).config_spec().zone,
                    source_of(*candle, old(self).config_spec().source),
                ).1,
            ],
            r.signals@ == seq![
                cmo_tick(
                    old(self).m(),
                    old(self).config_spec().zone,
                    source_of(*candle, old(self).config_spec().source),
                ).2,
            ],
            -SCALE_ONE <= r.values@[0] <= SCALE_ONE,
    {
        let src = candle.source(self.cfg.source);
        proof {
            lemma_change_inv_model(&self.change);
        }
        let ch = self.change.next(src);
        proof {
            assert(forall|i: int|
                0 <= i < self.window@.len() ==> 0 <= #[trigger] pos_measure()(self.window@[i])
                    <= 2 * VAL_MAX);
            assert(forall|i: int|
                0 <= i < self.window@.len() ==> 0 <= #[trigger] neg_measure()(self.window@[i])
                    <= 2 * VAL_MAX);
            lemma_sum_map_bounds(self.window@, pos_measure(), 0, 2 * VAL_MAX);
            lemma_sum_map_bounds(self.window@, neg_measure(), 0, 2 * VAL_MAX);
            lemma_sum_map_slide(self.window@, pos_measure(), ch);
            lemma_sum_map_slide(self.window@, neg_measure(), ch);
            assert(self.window@.len() * (2 * VAL_MAX) <= 255 * (2 * VAL_MAX))
                by (nonlinear_arith)
                requires
                    0 <= self.window@.len() <= 255,
            ;
        }
        let left = self.window.push(ch);
        let parts_new = change(ch);
        let parts_old = change(left);
        self.pos_sum = self.pos_sum + parts_new.0 - parts_old.0;
        self.neg_sum = self.neg_sum + parts_new.1 - parts_old.1;
        let value: i64 = if self.pos_sum != 0 || self.neg_sum != 0 {
            let num: i128 = (self.pos_sum as i128 - self.neg_sum as i128) * (SCALE_ONE as i128);
            let den: i128 = self.pos_sum as i128 + self.neg_sum as i128;
            proof {
                assert(forall|i: int|
                    0 <= i < self.window@.len() ==> 0 <= #[trigger] pos_measure()(
                        self.window@[i],
                    ));
                assert(forall|i: int|
                    0 <= i < self.window@.len() ==> 0 <= #[trigger] neg_measure()(
                        self.window@[i],
                    ));
                crate::math::lemma_sum_map_nonneg(self.window@, pos_measure());
                crate::math::lemma_sum_map_nonneg(self.window@, neg_measure());
                assert(abs_int(self.pos_sum - self.neg_sum) <= self.pos_sum + self.neg_sum);
                assert(abs_int((self.pos_sum - self.neg_sum) * SCALE_ONE) <= (self.pos_sum
                    + self.neg_sum) * SCALE_ONE) by (nonlinear_arith)
                    requires
                        abs_int(self.pos_sum - self.neg_sum) <= self.pos_sum + self.neg_sum,
                        SCALE_ONE > 0,
                ;
                lemma_div_trunc_quotient_bound(
                    (self.pos_sum - self.neg_sum) * SCALE_ONE,
                    self.pos_sum + self.neg_sum,
                    SCALE_ONE as int,
                );
            }
            let q = div_trunc_i128(num, den);
            q as i64
        } else {
            0
        };
        proof {
            lemma_cmo_value_in_unit(self.window@);
        }
        let nzone = -self.cfg.zone;
        let s_under = self.cross_under.next(value, nzone);
        let s_above = self.cross_above.next(value, self.cfg.zone);
        let signal = s_under - s_above;
        let mut values: Vec<i64> = Vec::new();
        values.push(value);
        let mut signals: Vec<i8> = Vec::new();
        signals.push(signal);
        IndicatorResult::new(values, signals)
    }
}

} // verus!
