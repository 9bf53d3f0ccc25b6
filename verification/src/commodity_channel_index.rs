//! Commodity Channel Index.
//!
//! The CCI method measures how far the newest observation sits from the
//! moving average of its window, in units of the window's mean absolute
//! deviation. The indicator scales the method's output by two thirds and
//! derives a signal from zone crossings against the previous tick's
//! value, suppressing a repeat of the previous signal. A crossing is a
//! transition relative to the prior tick's value, so before any tick has
//! run there is no prior value and nothing can signal.

use vstd::prelude::*;
use vstd::string::StringSliceAdditionalSpecFns;
use crate::types::{
    Error, Source, Candle, IndicatorResult, SCALE_ONE, VAL_MAX, in_range, in_range_seq,
    candle_in_range, source_of,
};
use crate::math::{
    div_trunc, div_trunc_i128, div_trunc_spec, sum_seq, sum_map, abs_int, lemma_sum_map_slide,
    lemma_sum_map_const, lemma_sum_map_bounds, lemma_sum_map_push, lemma_sum_map_nonneg,
    lemma_sum_map_elem_lower, lemma_div_trunc_quotient_bound,
};
use crate::window::Window;
use crate::method::Method;
use crate::sma::{id_measure, lemma_sum_seq_bound};
use crate::parse::{u8_parse, fixed_parse, source_parse, kw_period, kw_zone, kw_source,
    parse_u8, parse_fixed, parse_source, name_matches};

verus! {

/// Distance of a value from a given mean.
pub open spec fn dev_measure(ma: i64) -> spec_fn(i64) -> int {
    |x: i64| abs_int(x as int - ma as int)
}

/// State transition of the CCI method: slide the window of raw
/// observations.
pub open spec fn cci_step(w: Seq<i64>, v: i64) -> Seq<i64> {
    w.drop_first().push(v)
}

/// Output of the CCI method: the deviation of the newest observation from
/// the slid window's truncating mean, scaled into fixed-point units of
/// the window's mean absolute deviation; the neutral `0` when every
/// window value equals the mean.
pub open spec fn cci_out(w: Seq<i64>, v: i64) -> i64
    recommends
        w.len() >= 1,
{
    let w2 = cci_step(w, v);
    let n = w.len() as int;
    let ma = div_trunc_spec(sum_seq(w2), n) as i64;
    let dev = sum_map(w2, dev_measure(ma));
    if dev == 0 {
        0
    } else {
        div_trunc_spec((v - ma) * SCALE_ONE * n, dev) as i64
    }
}

/// Commodity Channel Index method over a window of raw observations. Its
/// model is the window of the last `period` observations, oldest first.
#[derive(Debug, Clone)]
pub struct CCI {
    period: u8,
    window: Window,
    sum: i64,
}

impl Method for CCI {
    type Model = Seq<i64>;

    closed spec fn m(&self) -> Seq<i64> {
        self.window@
    }

    closed spec fn inv(&self) -> bool {
        &&& self.period >= 1
        &&& self.window.wf()
        &&& self.window@.len() == self.period
        &&& in_range_seq(self.window@)
        &&& self.sum == sum_seq(self.window@)
    }

    open spec fn new_ok(period: u8) -> bool {
        period >= 1
    }

    open spec fn init_m(period: u8, value: i64) -> Seq<i64> {
        Seq::new(period as nat, |i: int| value)
    }

    open spec fn step_m(m: Seq<i64>, value: i64) -> Seq<i64> {
        cci_step(m, value)
    }

    open spec fn out_m(m: Seq<i64>, value: i64) -> i64 {
        cci_out(m, value)
    }

    open spec fn name_spec() -> Seq<char> {
        "CCI"@
    }

    fn name(&self) -> (r: &'static str) {
        "CCI"
    }

    fn new(period: u8, value: i64) -> (r: Result<Self, Error>) {
        if period == 0 {
            return Err(Error::WrongMethodParameters);
        }
        let window = Window::new(period as usize, value);
        assert((period as i64) * value <= 255 * VAL_MAX && (period as i64) * value >= -255
            * VAL_MAX) by (nonlinear_arith)
            requires
                1 <= period <= 255,
                -VAL_MAX <= value <= VAL_MAX,
        ;
        let sum = (period as i64) * value;
        proof {
            lemma_sum_map_const(window@, id_measure(), value as int);
            assert(window@ =~= Self::init_m(period, value));
        }
        Ok(CCI { period, window, sum })
    }

    fn next(&mut self, value: i64) -> (out: i64) {
        proof {
            lemma_sum_seq_bound(self.window@);
            lemma_sum_map_slide(self.window@, id_measure(), value);
        }
        let evicted = self.window.push(value);
        self.sum = self.sum - evicted + value;
        proof {
            assert(in_range_seq(self.window@)) by {
                assert(forall|i: int|
                    0 <= i < self.window@.len() ==> in_range(#[trigger] self.window@[i]));
            };
            lemma_sum_seq_bound(self.window@);
            assert(self.window@.len() * VAL_MAX <= 255 * VAL_MAX) by (nonlinear_arith)
                requires
                    0 <= self.window@.len() <= 255,
            ;
            crate::math::lemma_div_trunc_bound(
                sum_seq(self.window@),
                self.period as int,
                255 * VAL_MAX,
            );
            lemma_div_trunc_quotient_bound(
                sum_seq(self.window@),
                self.period as int,
                VAL_MAX as int,
            );
        }
        let ma = div_trunc(self.sum, self.period as i64);
        let n = self.window.len();
        let ghost dm = dev_measure(ma);
        let mut dev: i64 = 0;
        let mut i: usize = 0;
        while i < n
            invariant
                i <= n,
                n == self.window@.len(),
                1 <= n <= 255,
                self.window.wf(),
                in_range_seq(self.window@),
                in_range(ma),
                dm == dev_measure(ma),
                dev == sum_map(self.window@.take(i as int), dm),
                0 <= dev <= i * (2 * VAL_MAX),
            decreases n - i,
        {
            let x = self.window.get(i);
            let d = if x >= ma {
                x - ma
            } else {
                ma - x
            };
            proof {
                assert(self.window@.take(i as int).push(self.window@[i as int])
                    =~= self.window@.take(i + 1 as int));
                lemma_sum_map_push(self.window@.take(i as int), dm, self.window@[i as int]);
                assert(dm(self.window@[i as int]) == d);
            }
            proof {
                assert(0 <= d <= 2 * VAL_MAX);
                assert((i as int) * (2 * VAL_MAX) <= 254 * (2 * VAL_MAX)) by (nonlinear_arith)
                    requires
                        0 <= i <= 254,
                ;
                assert((i as int + 1) * (2 * VAL_MAX) == (i as int) * (2 * VAL_MAX) + 2
                    * VAL_MAX) by (nonlinear_arith);
            }
            dev = dev + d;
            i += 1;
        }
        proof {
            assert(self.window@.take(n as int) =~= self.window@);
        }
        if dev == 0 {
            return 0;
        }
        let diff = value - ma;
        proof {
            assert(abs_int((diff as int) * (SCALE_ONE as int)) <= 2_000_000_000_000
                * 1_000_000i128) by (nonlinear_arith)
                requires
                    -2_000_000_000_000 <= diff <= 2_000_000_000_000,
                    SCALE_ONE == 1_000_000,
            ;
            assert(abs_int(((diff as int) * (SCALE_ONE as int)) * (self.period as int))
                <= 2_000_000_000_000i128 * 1_000_000 * 255) by (nonlinear_arith)
                requires
                    abs_int((diff as int) * (SCALE_ONE as int)) <= 2_000_000_000_000
                        * 1_000_000i128,
                    1 <= self.period <= 255,
            ;
        }
        let num: i128 = (diff as i128) * (SCALE_ONE as i128) * (self.period as i128);
        proof {
            assert(forall|j: int|
                0 <= j < self.window@.len() ==> 0 <= #[trigger] dm(self.window@[j]));
            lemma_sum_map_elem_lower(self.window@, dm, self.window@.len() - 1);
            assert(self.window@[self.window@.len() - 1] == value);
            assert(abs_int(diff as int) <= dev);
            assert(abs_int((diff as int) * SCALE_ONE * (self.period as int)) <= (dev as int)
                * SCALE_ONE * (self.period as int)) by (nonlinear_arith)
                requires
                    abs_int(diff as int) <= dev,
                    SCALE_ONE > 0,
                    self.period >= 1,
            ;
            assert((dev as int) * SCALE_ONE * (self.period as int) == (dev as int) * (SCALE_ONE
                * (self.period as int))) by (nonlinear_arith);
            assert(SCALE_ONE * (self.period as int) <= 255_000_000) by (nonlinear_arith)
                requires
                    1 <= self.period <= 255,
                    SCALE_ONE == 1_000_000,
            ;
            lemma_div_trunc_quotient_bound(
                (diff as int) * SCALE_ONE * (self.period as int),
                dev as int,
                SCALE_ONE * (self.period as int),
            );
        }
        let q = div_trunc_i128(num, dev as i128);
        q as i64
    }
}

/// The indicator configuration is valid: a nonnegative zone and a period
/// strictly between `1` and the period type's maximum.
pub open spec fn cci_ind_valid(c: CommodityChannelIndex) -> bool {
    c.zone >= 0 && c.period > 1 && c.period < 255
}

/// Mathematical model of a live Commodity Channel Index: the method's
/// window, the previously emitted scaled value (none before the first
/// tick) and the previous signal.
pub struct CciModel {
    pub window: Seq<i64>,
    pub last_cci: Option<i64>,
    pub last_signal: i8,
}

/// Model of a freshly initialized indicator: no tick has run, so there is
/// no previous value yet.
pub open spec fn cci_ind_init(src: i64, period: u8) -> CciModel {
    CciModel {
        window: Seq::new(period as nat, |i: int| src),
        last_cci: Option::None,
        last_signal: 0,
    }
}

/// One tick of the indicator: the next model, the scaled value and the
/// signal. The raw method output is scaled by two thirds; a fresh cross
/// under `-zone` relative to the previous tick's value is a buy (`1`), a
/// fresh cross above `+zone` a sell (`-1`), and a signal equal to the
/// previous tick's is suppressed. On the first tick there is no previous
/// value, so no crossing exists and the signal is `0`.
pub open spec fn cci_ind_tick(m: CciModel, zone: i64, src: i64) -> (CciModel, i64, i8) {
    let raw = cci_out(m.window, src);
    let w2 = cci_step(m.window, src);
    let value = div_trunc_spec((raw as int) * 2, 3) as i64;
    let t = match m.last_cci {
        Option::None => 0int,
        Option::Some(prev) => (if value < -zone && prev >= -zone {
            1int
        } else {
            0int
        }) - (if value > zone && prev <= zone {
            1int
        } else {
            0int
        }),
    };
    let signal: i8 = if t != 0 && m.last_signal != t {
        t as i8
    } else {
        0i8
    };
    (
        CciModel { window: w2, last_cci: Option::Some(value), last_signal: signal },
        value,
        signal,
    )
}

/// Commodity Channel Index configuration: one value (the scaled
/// oscillator) and one signal per tick.
#[derive(Debug, Clone, Copy, PartialEq, Eq, Structural)]
pub struct CommodityChannelIndex {
    /// Main period size. Default is `18`; must be at least `2` and below
    /// the period type's maximum.
    pub period: u8,
    /// Signal zone size, in fixed-point units. Default is `1`; must be
    /// nonnegative.
    pub zone: i64,
    /// Source field of the candle to read. Default is close.
    pub source: Source,
}

impl CommodityChannelIndex {
    /// The indicator's display name.
    pub fn name(&self) -> (r: &'static str)
        ensures
            r@ == "CommodityChannelIndex"@,
    {
        "CommodityChannelIndex"
    }

    /// The validation predicate checked by `init`.
    pub fn validate(&self) -> (r: bool)
        ensures
            r == cci_ind_valid(*self),
    {
        self.zone >= 0 && self.period > 1 && self.period < 255
    }

    /// Validate the configuration and construct a live instance seeded
    /// from the first candle. Fails with `WrongConfig` exactly when
    /// validation fails; no instance is produced then.
    pub fn init(self, candle: &Candle) -> (r: Result<CommodityChannelIndexInstance, Error>)
        requires
            candle_in_range(*candle),
        ensures
            r is Ok <==> cci_ind_valid(self),
            r is Ok ==> (r->Ok_0).inv() && (r->Ok_0).config_spec() == self && (r->Ok_0).m()
                == cci_ind_init(source_of(*candle, self.source), self.period),
            r is Err ==> r->Err_0 == Error::WrongConfig,
    {
        if !self.validate() {
            return Err(Error::WrongConfig);
        }
        let src = candle.source(self.source);
        let cci = match CCI::new(self.period, src) {
            Ok(c) => c,
            Err(_) => {
                proof {
                    assert(false);
                }
                return Err(Error::WrongConfig);
            },
        };
        Ok(
            CommodityChannelIndexInstance {
                cfg: self,
                cci,
                primed: false,
                last_cci: 0,
                last_signal: 0,
            },
        )
    }

    /// Set the field named `name` from a parameter string. Fails with a
    /// `ParameterParse` error carrying the name and the raw string when
    /// the name is unknown or the string does not parse; the
    /// configuration is unchanged then.
    pub fn set(&mut self, name: &str, value: String) -> (r: Result<(), Error>)
        ensures
            ({
                let nb = name.spec_bytes();
                let vb = vstd::utf8::encode_utf8(value@);
                &&& (r is Ok <==> ((nb == kw_period() && u8_parse(vb) is Some) || (nb
                    == kw_zone() && fixed_parse(vb) is Some) || (nb == kw_source()
                    && source_parse(vb) is Some)))
                &&& (nb == kw_period() && u8_parse(vb) is Some ==> *final(self)
                    == (CommodityChannelIndex { period: u8_parse(vb)->0, ..*old(self) }))
                &&& (nb == kw_zone() && fixed_parse(vb) is Some ==> *final(self)
                    == (CommodityChannelIndex { zone: fixed_parse(vb)->0, ..*old(self) }))
                &&& (nb == kw_source() && source_parse(vb) is Some ==> *final(self)
                    == (CommodityChannelIndex { source: source_parse(vb)->0, ..*old(self) }))
                &&& (r is Err ==> *final(self) == *old(self) && r->Err_0 is ParameterParse
                    && (r->Err_0)->ParameterParse_0@ == name@ && (r->Err_0)->ParameterParse_1@
                    == value@)
            }),
    {
        let b = name.as_bytes();
        if name_matches(b, 0) {
            match parse_u8(value.as_str()) {
                Some(p) => {
                    self.period = p;
                    Ok(())
                },
                None => Err(Error::ParameterParse(name.to_owned(), value)),
            }
        } else if name_matches(b, 1) {
            match parse_fixed(value.as_str()) {
                Some(z) => {
                    self.zone = z;
                    Ok(())
                },
                None => Err(Error::ParameterParse(name.to_owned(), value)),
            }
        } else if name_matches(b, 2) {
            match parse_source(value.as_str()) {
                Some(s) => {
                    self.source = s;
                    Ok(())
                },
                None => Err(Error::ParameterParse(name.to_owned(), value)),
            }
        } else {
            Err(Error::ParameterParse(name.to_owned(), value))
        }
    }

    /// Width of the per-tick result: one value and one signal.
    pub fn size(&self) -> (r: (u8, u8))
        ensures
            r == (1u8, 1u8),
    {
        (1, 1)
    }
}

impl Default for CommodityChannelIndex {
    /// Period `18`, zone `1`, close source.
    fn default() -> (r: CommodityChannelIndex)
        ensures
            r.period == 18,
            r.zone == SCALE_ONE,
            r.source == Source::Close,
    {
        CommodityChannelIndex { period: 18, zone: SCALE_ONE, source: Source::Close }
    }
}

/// A live Commodity Channel Index.
#[derive(Debug, Clone)]
pub struct CommodityChannelIndexInstance {
    cfg: CommodityChannelIndex,
    cci: CCI,
    primed: bool,
    last_cci: i64,
    last_signal: i8,
}

impl CommodityChannelIndexInstance {
    /// The configuration this instance was initialized from.
    pub closed spec fn config_spec(&self) -> CommodityChannelIndex {
        self.cfg
    }

    /// Mathematical model of the instance's state.
    pub closed spec fn m(&self) -> CciModel {
        CciModel {
            window: self.cci.m(),
            last_cci: if self.primed {
                Option::Some(self.last_cci)
            } else {
                Option::None
            },
            last_signal: self.last_signal,
        }
    }

    /// Well-formedness: a valid configuration and a well-formed method
    /// state of the configured period.
    pub closed spec fn inv(&self) -> bool {
        &&& cci_ind_valid(self.cfg)
        &&& self.cci.inv()
        &&& self.cci.m().len() == self.cfg.period
    }

    /// The retained configuration.
    pub fn config(&self) -> (r: &CommodityChannelIndex)
        ensures
            *r == self.config_spec(),
    {
        &self.cfg
    }

    /// One tick: extract the configured source, drive the method once,
    /// scale its output, derive the signal from the previous value and
    /// signal, all exactly along [`cci_ind_tick`].
    pub fn next(&mut self, candle: &Candle) -> (r: IndicatorResult)
        requires
            old(self).inv(),
            candle_in_range(*candle),
        ensures
            final(self).inv(),
            final(self).config_spec() == old(self).config_spec(),
            final(self).m() == cci_ind_tick(
                old(self).m(),
                old(self).config_spec().zone,
                source_of(*candle, old(self).config_spec().source),
            ).0,
            r.values@ == seq![
                cci_ind_tick(
                    old(self).m(),
                    old(self).config_spec().zone,
                    source_of(*candle, old(self).config_spec().source),
                ).1,
            ],
            r.signals@ == seq![
                cci_ind_tick(
                    old(self).m(),
                    old(self).config_spec().zone,
                    source_of(*candle, old(self).config_spec().source),
                ).2,
            ],
    {
        let src = candle.source(self.cfg.source);
        let raw = self.cci.next(src);
        proof {
            lemma_cci_out_scaled_bound(old(self).m().window, src);
        }
        let num = raw * 2;
        let value = div_trunc(num, 3);
        let t: i8 = if self.primed {
            let down: i8 = if value < -self.cfg.zone && self.last_cci >= -self.cfg.zone {
                1
            } else {
                0
            };
            let up: i8 = if value > self.cfg.zone && self.last_cci <= self.cfg.zone {
                1
            } else {
                0
            };
            down - up
        } else {
            0
        };
        let signal: i8 = if t != 0 && self.last_signal != t {
            t
        } else {
            0
        };
        self.primed = true;
        self.last_cci = value;
        self.last_signal = signal;
        let mut values: Vec<i64> = Vec::new();
        values.push(value);
        let mut signals: Vec<i8> = Vec::new();
        signals.push(signal);
        IndicatorResult::new(values, signals)
    }
}

/// The CCI method's output is bounded by the fixed-point scale times the
/// window length, so doubling it stays well within `i64`.
pub proof fn lemma_cci_out_scaled_bound(w: Seq<i64>, v: i64)
    requires
        w.len() >= 1,
        w.len() <= 255,
    ensures
        abs_int(cci_out(w, v) as int) <= 255_000_000,
{
    let w2 = cci_step(w, v);
    let n = w.len() as int;
    let ma = div_trunc_spec(sum_seq(w2), n) as i64;
    let dev = sum_map(w2, dev_measure(ma));
    if dev == 0 {
    } else {
        assert(forall|j: int|
            0 <= j < w2.len() ==> 0 <= #[trigger] dev_measure(ma)(w2[j]));
        lemma_sum_map_nonneg(w2, dev_measure(ma));
        lemma_sum_map_elem_lower(w2, dev_measure(ma), w2.len() - 1);
        assert(w2[w2.len() - 1] == v);
        assert(abs_int(v - ma) <= dev);
        assert(abs_int((v - ma) * SCALE_ONE * n) <= dev * (SCALE_ONE * n)) by (nonlinear_arith)
            requires
                abs_int((v as int) - (ma as int)) <= dev,
                SCALE_ONE > 0,
                n >= 1,
        ;
        assert(SCALE_ONE * n <= 255_000_000) by (nonlinear_arith)
            requires
                1 <= n <= 255,
                SCALE_ONE == 1_000_000,
        ;
        lemma_div_trunc_quotient_bound((v - ma) * SCALE_ONE * n, dev, SCALE_ONE * n);
    }
}

} // verus!
