//! Tests of the two indicators: validation, initialization, dynamic
//! reconfiguration, and hand-computed per-tick results.

use yata::types::{Candle, Error, Source};
use yata::chande_momentum_oscillator::ChandeMomentumOscillator;
use yata::commodity_channel_index::CommodityChannelIndex;

const ONE: f64 = 1_000_000.0;

fn fp(x: f64) -> i64 {
    (x * ONE).round() as i64
}

fn candle(close: f64) -> Candle {
    Candle {
        open: fp(close) - fp(0.5),
        high: fp(close) + fp(1.0),
        low: fp(close) - fp(1.0),
        close: fp(close),
        volume: fp(100.0),
    }
}

#[test]
fn cmo_defaults_and_validation() {
    let cfg = ChandeMomentumOscillator::default();
    assert_eq!(cfg.period, 9);
    assert_eq!(cfg.zone, fp(0.5));
    assert_eq!(cfg.source, Source::Close);
    assert!(cfg.validate());
    assert_eq!(cfg.size(), (1, 1));

    let mut bad = cfg;
    bad.period = 1;
    assert!(!bad.validate());
    assert!(matches!(bad.init(&candle(10.0)), Err(Error::WrongConfig)));

    let mut bad_zone = cfg;
    bad_zone.zone = fp(1.5);
    assert!(!bad_zone.validate());
    assert!(bad_zone.init(&candle(10.0)).is_err());
}

#[test]
fn cmo_neutral_and_ratio_values() {
    let mut cfg = ChandeMomentumOscillator::default();
    cfg.period = 2;
    let mut inst = cfg.init(&candle(10.0)).unwrap();
    assert_eq!(inst.config(), &cfg);

    // Rising ticks: every change is positive, so the ratio is exactly 1.
    let r1 = inst.next(&candle(11.0));
    assert_eq!(r1.values, vec![fp(1.0)]);
    assert_eq!(r1.signals, vec![0]);
    let r2 = inst.next(&candle(12.0));
    assert_eq!(r2.values, vec![fp(1.0)]);
    assert_eq!(r2.signals, vec![0]);

    // One rise and one equal fall cancel: the ratio is the neutral 0.
    let r3 = inst.next(&candle(11.0));
    assert_eq!(r3.values, vec![fp(0.0)]);
    assert_eq!(r3.signals, vec![0]);
}

#[test]
fn cmo_buy_signal_on_cross_under() {
    let mut cfg = ChandeMomentumOscillator::default();
    cfg.period = 2;
    cfg.zone = fp(0.5);
    let mut inst = cfg.init(&candle(10.0)).unwrap();

    let r1 = inst.next(&candle(11.0));
    assert_eq!(r1.values, vec![fp(1.0)]);
    assert_eq!(r1.signals, vec![0]);

    // Changes +1 and -2: ratio (1-2)/(1+2) truncated toward zero.
    let r2 = inst.next(&candle(9.0));
    assert_eq!(r2.values, vec![-333_333]);
    assert_eq!(r2.signals, vec![0]);

    // Changes -2 and -2: ratio -1, crossing under the -0.5 zone: buy.
    let r3 = inst.next(&candle(7.0));
    assert_eq!(r3.values, vec![fp(-1.0)]);
    assert_eq!(r3.signals, vec![1]);

    // Staying below the zone is not a new cross.
    let r4 = inst.next(&candle(5.0));
    assert_eq!(r4.values, vec![fp(-1.0)]);
    assert_eq!(r4.signals, vec![0]);
}

#[test]
fn cmo_sell_signal_on_cross_above() {
    let mut cfg = ChandeMomentumOscillator::default();
    cfg.period = 2;
    cfg.zone = fp(0.5);
    let mut inst = cfg.init(&candle(10.0)).unwrap();

    // Fall first: ratio -1 from the first tick, no signal at the first pair.
    let r1 = inst.next(&candle(9.0));
    assert_eq!(r1.values, vec![fp(-1.0)]);
    assert_eq!(r1.signals, vec![0]);

    // Rise of +3 against the remembered fall of -1: ratio (3-1)/(3+1).
    let r2 = inst.next(&candle(12.0));
    assert_eq!(r2.values, vec![fp(0.5)]);
    assert_eq!(r2.signals, vec![0]);

    // Two rises: ratio 1, crossing above the +0.5 zone: sell.
    let r3 = inst.next(&candle(15.0));
    assert_eq!(r3.values, vec![fp(1.0)]);
    assert_eq!(r3.signals, vec![-1]);
}

#[test]
fn set_unknown_name_and_bad_values() {
    let mut cfg = ChandeMomentumOscillator::default();

    let r = cfg.set("granularity", String::from("3"));
    assert_eq!(
        r,
        Err(Error::ParameterParse(String::from("granularity"), String::from("3")))
    );

    let r = cfg.set("period", String::from("around nine"));
    assert_eq!(
        r,
        Err(Error::ParameterParse(String::from("period"), String::from("around nine")))
    );

    let r = cfg.set("period", String::from("256"));
    assert!(r.is_err());

    let r = cfg.set("zone", String::from("1e-3"));
    assert!(r.is_err());

    let r = cfg.set("zone", String::from("0.1234567"));
    assert!(r.is_err());

    let r = cfg.set("source", String::from("median"));
    assert!(r.is_err());

    // The configuration is untouched by failed sets.
    assert_eq!(cfg, ChandeMomentumOscillator::default());
}

#[test]
fn set_updates_fields() {
    let mut cfg = ChandeMomentumOscillator::default();
    assert_eq!(cfg.set("period", String::from("+12")), Ok(()));
    assert_eq!(cfg.period, 12);
    assert_eq!(cfg.set("zone", String::from("0.25")), Ok(()));
    assert_eq!(cfg.zone, fp(0.25));
    assert_eq!(cfg.set("zone", String::from("-0.125")), Ok(()));
    assert_eq!(cfg.zone, fp(-0.125));
    assert_eq!(cfg.set("zone", String::from("1")), Ok(()));
    assert_eq!(cfg.zone, fp(1.0));
    assert_eq!(cfg.set("source", String::from("high")), Ok(()));
    assert_eq!(cfg.source, Source::High);

    let mut cci = CommodityChannelIndex::default();
    assert_eq!(cci.set("period", String::from("20")), Ok(()));
    assert_eq!(cci.period, 20);
    assert_eq!(cci.set("zone", String::from("2.5")), Ok(()));
    assert_eq!(cci.zone, fp(2.5));
    assert_eq!(cci.set("source", String::from("volume")), Ok(()));
    assert_eq!(cci.source, Source::Volume);
    let r = cci.set("periods", String::from("20"));
    assert_eq!(
        r,
        Err(Error::ParameterParse(String::from("periods"), String::from("20")))
    );
}

#[test]
fn cci_defaults_and_validation() {
    let cfg = CommodityChannelIndex::default();
    assert_eq!(cfg.period, 18);
    assert_eq!(cfg.zone, fp(1.0));
    assert_eq!(cfg.source, Source::Close);
    assert!(cfg.validate());
    assert_eq!(cfg.size(), (1, 1));

    let mut bad = cfg;
    bad.period = 255;
    assert!(!bad.validate());
    assert!(matches!(bad.init(&candle(10.0)), Err(Error::WrongConfig)));

    let mut bad_zone = cfg;
    bad_zone.zone = fp(-0.5);
    assert!(!bad_zone.validate());
    assert!(bad_zone.init(&candle(10.0)).is_err());
}

#[test]
fn cci_hand_computed_ticks() {
    let mut cfg = CommodityChannelIndex::default();
    cfg.period = 2;
    let mut inst = cfg.init(&candle(10.0)).unwrap();
    assert_eq!(inst.config(), &cfg);

    // Window [10, 11]: mean 10.5, mean deviation 0.5, raw ratio 1,
    // scaled by two thirds.
    let r1 = inst.next(&candle(11.0));
    assert_eq!(r1.values, vec![666_666]);
    assert_eq!(r1.signals, vec![0]);

    // A flat window has zero deviation: the neutral 0.
    let mut flat = cfg.init(&candle(10.0)).unwrap();
    let rf = flat.next(&candle(10.0));
    assert_eq!(rf.values, vec![0]);
    assert_eq!(rf.signals, vec![0]);
}

#[test]
fn cci_no_signal_on_first_tick() {
    let mut cfg = CommodityChannelIndex::default();
    cfg.period = 2;
    cfg.zone = fp(0.5);
    let mut inst = cfg.init(&candle(10.0)).unwrap();

    // The first value 0.666666 already exceeds the zone, but there is no
    // previous value to cross from, so the first tick never signals.
    let r1 = inst.next(&candle(11.0));
    assert_eq!(r1.values, vec![666_666]);
    assert_eq!(r1.signals, vec![0]);

    // The second tick has a previous value above the zone: still no fresh
    // cross, so still no signal.
    let r2 = inst.next(&candle(12.0));
    assert_eq!(r2.values, vec![666_666]);
    assert_eq!(r2.signals, vec![0]);
}

#[test]
fn cci_signals_on_zone_crossings() {
    let mut cfg = CommodityChannelIndex::default();
    cfg.period = 2;
    cfg.zone = fp(0.5);
    let mut inst = cfg.init(&candle(10.0)).unwrap();

    // A flat first tick: zero deviation, neutral value, no signal.
    let r1 = inst.next(&candle(10.0));
    assert_eq!(r1.values, vec![0]);
    assert_eq!(r1.signals, vec![0]);

    // The value rises from 0 to 0.666666, crossing above the zone: sell.
    let r2 = inst.next(&candle(11.0));
    assert_eq!(r2.values, vec![666_666]);
    assert_eq!(r2.signals, vec![-1]);

    // Staying above the zone is not a new cross.
    let r3 = inst.next(&candle(12.0));
    assert_eq!(r3.values, vec![666_666]);
    assert_eq!(r3.signals, vec![0]);

    // The value falls from above the zone to below its negative: buy.
    let r4 = inst.next(&candle(9.0));
    assert_eq!(r4.values, vec![-666_666]);
    assert_eq!(r4.signals, vec![1]);
}

#[test]
fn indicator_source_selection() {
    let mut cfg = ChandeMomentumOscillator::default();
    cfg.period = 2;
    cfg.source = Source::Volume;
    let mut inst = cfg.init(&candle(10.0)).unwrap();
    // The volume is constant across candles, so every change is zero and
    // the oscillator stays neutral.
    let r = inst.next(&candle(50.0));
    assert_eq!(r.values, vec![0]);
    let r = inst.next(&candle(70.0));
    assert_eq!(r.values, vec![0]);
}
