use ta_indicators::dema::InternalDema;
use ta_indicators::ema::InternalEma;
use ta_indicators::macd::{InternalMacd, MacdConfig, MacdIndicatorEnum, MacdResult};
use ta_indicators::utils::{set_result, MaIndicator, LINE_LIMIT};

const UNIT: i64 = 1_000_000;

fn ema_step(interval: i64, prev: i64, price: i64) -> i64 {
    let num = 2 * price as i128 + (interval as i128 - 1) * prev as i128;
    num.div_euclid(interval as i128 + 1) as i64
}

fn config(kind: MacdIndicatorEnum, long: u64, short: u64, signal: u64) -> MacdConfig {
    MacdConfig {
        long_interval: long,
        short_interval: short,
        signal_interval: signal,
        indicator: kind,
    }
}

#[test]
fn ema_is_zero_and_unstable_during_warm_up() {
    let mut e = InternalEma::new(5);
    assert!(!e.is_stable());
    assert_eq!(e.get_result(), 0);
    for p in [7, -3, 12, 40] {
        let raw = e.update(p * UNIT);
        assert_ne!(raw, 0);
        assert!(!e.is_stable());
        assert_eq!(e.get_result(), 0);
    }
}

#[test]
fn ema_recurrence_on_four_prices() {
    let mut e = InternalEma::new(3);
    assert_eq!(e.update(10 * UNIT), 10_000_000);
    assert!(!e.is_stable());
    assert_eq!(e.update(20 * UNIT), 15_000_000);
    assert!(!e.is_stable());
    assert_eq!(e.update(30 * UNIT), 22_500_000);
    assert!(e.is_stable());
    assert_eq!(e.update(40 * UNIT), 31_250_000);
    assert!(e.is_stable());
    assert_eq!(e.get_result(), 31_250_000);
}

#[test]
fn ema_matches_closed_form_once_stable() {
    let prices: [i64; 9] = [5, -17, 230, 4_000_001, -99, 12, 0, 77_777, -1];
    let interval: u64 = 4;
    let mut e = InternalEma::new(interval);
    let mut expected = prices[0];
    for (k, p) in prices.iter().enumerate() {
        if k > 0 {
            expected = ema_step(interval as i64, expected, *p);
        }
        assert_eq!(e.update(*p), expected);
        let stable = k + 1 >= interval as usize;
        assert_eq!(e.is_stable(), stable);
        assert_eq!(e.get_result(), if stable { expected } else { 0 });
    }
}

#[test]
fn ema_first_value_is_first_price() {
    let mut e = InternalEma::new(9);
    assert_eq!(e.update(-123_456), -123_456);
}

#[test]
fn ema_rounds_toward_negative_infinity() {
    let mut e = InternalEma::new(3);
    assert_eq!(e.update(-1), -1);
    assert_eq!(e.update(0), -1);
    let mut f = InternalEma::new(3);
    assert_eq!(f.update(1), 1);
    assert_eq!(f.update(0), 0);
}

#[test]
fn ema_interval_one_follows_prices() {
    let mut e = InternalEma::new(1);
    assert_eq!(e.update(3), 3);
    assert!(e.is_stable());
    assert_eq!(e.update(-8), -8);
    assert_eq!(e.get_result(), -8);
}

#[test]
fn ema_accepts_the_largest_prices() {
    let limit = LINE_LIMIT;
    let mut e = InternalEma::new(u64::MAX);
    assert_eq!(e.update(limit), limit);
    assert_eq!(e.update(-limit), limit - 1);
    assert!(!e.is_stable());
}

#[test]
fn dema_stable_after_interval_updates() {
    let mut d = InternalDema::new(2);
    assert!(!d.is_stable());
    d.update(10 * UNIT);
    assert!(!d.is_stable());
    assert_eq!(d.get_result(), 0);
    d.update(20 * UNIT);
    assert!(d.is_stable());
}

#[test]
fn dema_combines_inner_and_outer() {
    let mut d = InternalDema::new(3);
    assert_eq!(d.update(10 * UNIT), 10_000_000);
    assert_eq!(d.update(20 * UNIT), 17_500_000);
    assert_eq!(d.get_result(), 0);
    let third = d.update(30 * UNIT);
    assert!(d.is_stable());
    assert_eq!(d.get_result(), third);
}

#[test]
fn dema_extrema_follow_its_own_output() {
    let mut d = InternalDema::new(3);
    assert_eq!(d.highest(), 0);
    assert_eq!(d.lowest(), 0);
    assert_eq!(d.update(UNIT), 1_000_000);
    assert_eq!(d.highest(), 1_000_000);
    assert_eq!(d.lowest(), 1_000_000);
    assert_eq!(d.update(0), 250_000);
    assert_eq!(d.update(UNIT), 750_000);
    assert_eq!(d.highest(), 1_000_000);
    assert_eq!(d.lowest(), 250_000);

    let mut e = InternalDema::new(3);
    assert_eq!(e.update(0), 0);
    assert_eq!(e.update(UNIT), 750_000);
    assert_eq!(e.update(0), 250_000);
    assert_eq!(e.highest(), 750_000);
    assert_eq!(e.lowest(), 0);
}

#[test]
fn dema_extrema_equal_running_max_and_min() {
    let prices: [i64; 8] = [50, 3, 900, -400, 12, 12, 7_000, -9];
    let mut d = InternalDema::new(3);
    let mut outputs = Vec::new();
    for p in prices {
        outputs.push(d.update(p));
        assert_eq!(d.highest(), *outputs.iter().max().unwrap());
        assert_eq!(d.lowest(), *outputs.iter().min().unwrap());
    }
}

#[test]
fn set_result_tracks_extrema() {
    let (mut result, mut highest, mut lowest, mut initialized) = (0i64, 0i64, 0i64, false);
    assert!(set_result(5, &mut result, &mut highest, &mut lowest, &mut initialized));
    assert_eq!((result, highest, lowest, initialized), (5, 5, 5, true));
    assert!(set_result(-2, &mut result, &mut highest, &mut lowest, &mut initialized));
    assert_eq!((result, highest, lowest), (-2, 5, -2));
    assert!(set_result(9, &mut result, &mut highest, &mut lowest, &mut initialized));
    assert_eq!((result, highest, lowest), (9, 9, -2));
}

#[test]
fn macd_ema_warm_up_then_signal() {
    let mut m = InternalMacd::new(config(MacdIndicatorEnum::EMA, 3, 2, 2));
    let zero = MacdResult { histogram: 0, macd: 0, signal: 0 };
    assert_eq!(m.update(0), zero);
    assert!(!m.is_stable());
    assert_eq!(m.get_result(), zero);

    let r = m.update(12 * UNIT);
    assert_eq!(r, MacdResult { histogram: 2_000_000, macd: 2_000_000, signal: 0 });
    assert!(!m.is_stable());
    assert_eq!(m.get_result(), zero);

    let r = m.update(24 * UNIT);
    assert_eq!(r, MacdResult { histogram: 0, macd: 3_666_666, signal: 3_666_666 });
    assert!(m.is_stable());
    assert_eq!(m.get_result(), r);

    let r = m.update(36 * UNIT);
    assert_eq!(r, MacdResult { histogram: 351_852, macd: 4_722_222, signal: 4_370_370 });
    assert_eq!(m.get_result(), r);
}

#[test]
fn macd_dema_first_signal_equals_divergence() {
    let mut m = InternalMacd::new(config(MacdIndicatorEnum::DEMA, 4, 2, 3));
    for p in [3, 9, -4] {
        let r = m.update(p * UNIT);
        assert!(!m.is_stable());
        assert_eq!(r.signal, 0);
        assert_eq!(m.get_result(), MacdResult { histogram: 0, macd: 0, signal: 0 });
    }
    let r = m.update(15 * UNIT);
    assert!(m.is_stable());
    assert_eq!(r.signal, r.macd);
    assert_eq!(r.histogram, 0);
    assert_eq!(m.get_result(), r);
}

#[test]
fn macd_histogram_is_macd_minus_signal() {
    for kind in [MacdIndicatorEnum::EMA, MacdIndicatorEnum::DEMA] {
        let mut m = InternalMacd::new(config(kind, 5, 2, 3));
        for p in [100, 250, -75, 4_000, 3_999, 12, 12, -600, 88, 1_000_000] {
            let r = m.update(p);
            assert_eq!(r.histogram, r.macd - r.signal);
            let g = m.get_result();
            assert_eq!(g.histogram, g.macd - g.signal);
        }
    }
}

#[test]
fn macd_signal_gated_only_by_long_line() {
    let mut m = InternalMacd::new(config(MacdIndicatorEnum::EMA, 2, 1, 10));
    m.update(5 * UNIT);
    assert!(!m.is_stable());
    let r = m.update(8 * UNIT);
    assert!(m.is_stable());
    assert_ne!(r.signal, 0);
    assert_eq!(m.get_result(), r);
}

#[test]
fn macd_fast_update_advances_like_update() {
    let cfg = config(MacdIndicatorEnum::DEMA, 3, 2, 2);
    let mut a = InternalMacd::new(cfg);
    let mut b = InternalMacd::new(cfg);
    for p in [4, 8, 15, 16, 23, 42] {
        let r = a.update(p * UNIT);
        assert!(b.fast_update(p * UNIT));
        assert_eq!(b.get_result(), a.get_result());
        assert_eq!(b.update(0), a.update(0));
        assert_eq!(r.histogram, r.macd - r.signal);
    }
}

#[test]
fn replay_reproduces_outputs() {
    let prices: [i64; 7] = [31, -5, 2_718, 2_718, 0, -1_000, 161];
    let (mut e1, mut e2) = (InternalEma::new(3), InternalEma::new(3));
    let (mut d1, mut d2) = (InternalDema::new(3), InternalDema::new(3));
    let cfg = config(MacdIndicatorEnum::EMA, 4, 2, 3);
    let (mut m1, mut m2) = (InternalMacd::new(cfg), InternalMacd::new(cfg));
    for p in prices {
        assert_eq!(e1.update(p), e2.update(p));
        assert_eq!(e1.get_result(), e2.get_result());
        assert_eq!(d1.update(p), d2.update(p));
        assert_eq!((d1.highest(), d1.lowest()), (d2.highest(), d2.lowest()));
        assert_eq!(m1.update(p), m2.update(p));
        assert_eq!(m1.get_result(), m2.get_result());
    }
}
