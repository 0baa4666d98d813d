//! The moving average convergence/divergence engine and its pluggable line
//! indicators.
use crate::dema::{dema_fold, ema_trace, lemma_dema_bound, lemma_dema_replay, InternalDema};
use crate::ema::{ema_fold, lemma_ema_replay, lemma_first_value, lemma_fold_bound, InternalEma};
use crate::utils::{bounded_by, gated, MaIndicator, LINE_LIMIT};
use vstd::prelude::*;

verus! {

/// Largest magnitude of a price that the MACD engine accepts: small enough
/// that its divergence can be fed to a line indicator.
pub const PRICE_LIMIT: i64 = 0x0100_0000_0000_0000;

/// The kind of line indicator used for all three lines of a MACD.
#[derive(Clone, Copy, PartialEq, Eq, Debug, Structural)]
pub enum MacdIndicatorEnum {
    EMA,
    DEMA,
}

/// The configuration of a MACD engine.
#[derive(Clone, Copy, PartialEq, Eq, Debug, Structural)]
pub struct MacdConfig {
    pub long_interval: u64,
    pub short_interval: u64,
    pub signal_interval: u64,
    pub indicator: MacdIndicatorEnum,
}

/// One MACD readout.
#[derive(Clone, Copy, PartialEq, Eq, Debug, Structural)]
pub struct MacdResult {
    pub histogram: i64,
    pub macd: i64,
    pub signal: i64,
}

/// The raw output of a line indicator of the given kind after `prices`.
pub open spec fn line_fold(kind: MacdIndicatorEnum, interval: int, prices: Seq<int>) -> int {
    match kind {
        MacdIndicatorEnum::EMA => ema_fold(interval, prices),
        MacdIndicatorEnum::DEMA => dema_fold(interval, prices),
    }
}

/// The raw output of a line indicator on prices bounded by `b` is bounded
/// by `3 * b`.
pub proof fn lemma_line_bound(kind: MacdIndicatorEnum, interval: int, prices: Seq<int>, b: int)
    requires
        interval >= 1,
        b >= 0,
        bounded_by(prices, b),
    ensures
        -3 * b <= line_fold(kind, interval, prices) <= 3 * b,
{
    match kind {
        MacdIndicatorEnum::EMA => lemma_fold_bound(interval, prices, b),
        MacdIndicatorEnum::DEMA => lemma_dema_bound(interval, prices, b),
    }
}

/// A line indicator, of one of the two kinds.
pub enum LineIndicator {
    Ema(InternalEma),
    Dema(InternalDema),
}

impl LineIndicator {
    /// The kind of indicator.
    pub closed spec fn kind(&self) -> MacdIndicatorEnum {
        match self {
            LineIndicator::Ema(_) => MacdIndicatorEnum::EMA,
            LineIndicator::Dema(_) => MacdIndicatorEnum::DEMA,
        }
    }

    /// The smoothing window length.
    pub closed spec fn interval(&self) -> int {
        match self {
            LineIndicator::Ema(e) => e.interval(),
            LineIndicator::Dema(d) => d.interval(),
        }
    }

    /// Every value fed so far, oldest first.
    pub closed spec fn history(&self) -> Seq<int> {
        match self {
            LineIndicator::Ema(e) => e.history(),
            LineIndicator::Dema(d) => d.history(),
        }
    }

    /// The internal invariant.
    pub closed spec fn wf(&self) -> bool {
        match self {
            LineIndicator::Ema(e) => e.wf(),
            LineIndicator::Dema(d) => d.wf(),
        }
    }

    /// Feeds one value and returns the raw output.
    pub fn update(&mut self, price: i64) -> (r: i64)
        requires
            old(self).wf(),
            -LINE_LIMIT <= price <= LINE_LIMIT,
        ensures
            final(self).wf(),
            final(self).kind() == old(self).kind(),
            final(self).interval() == old(self).interval(),
            final(self).history() == old(self).history().push(price as int),
            r == line_fold(final(self).kind(), final(self).interval(), final(self).history()),
    {
        match self {
            LineIndicator::Ema(e) => e.update(price),
            LineIndicator::Dema(d) => d.update(price),
        }
    }

    /// The gated output: the raw output once stable, else `0`.
    pub fn get_result(&self) -> (r: i64)
        requires
            self.wf(),
        ensures
            r == gated(
                self.history().len() >= self.interval(),
                line_fold(self.kind(), self.interval(), self.history()),
            ),
    {
        match self {
            LineIndicator::Ema(e) => e.get_result(),
            LineIndicator::Dema(d) => d.get_result(),
        }
    }

    /// Whether at least `interval` values were fed.
    pub fn is_stable(&self) -> (r: bool)
        requires
            self.wf(),
        ensures
            r == (self.history().len() >= self.interval()),
    {
        match self {
            LineIndicator::Ema(e) => e.is_stable(),
            LineIndicator::Dema(d) => d.is_stable(),
        }
    }
}

/// Builds the line indicator of the given kind.
pub fn get_indicator(indicator: MacdIndicatorEnum, interval: u64) -> (r: LineIndicator)
    requires
        interval > 0,
    ensures
        r.wf(),
        r.kind() == indicator,
        r.interval() == interval,
        r.history() == Seq::<int>::empty(),
{
    match indicator {
        MacdIndicatorEnum::DEMA => LineIndicator::Dema(InternalDema::new(interval)),
        MacdIndicatorEnum::EMA => LineIndicator::Ema(InternalEma::new(interval)),
    }
}

/// The divergence after `prices`: short line minus long line, both raw.
pub open spec fn macd_line(cfg: MacdConfig, prices: Seq<int>) -> int {
    line_fold(cfg.indicator, cfg.short_interval as int, prices) - line_fold(
        cfg.indicator,
        cfg.long_interval as int,
        prices,
    )
}

/// The values fed to the signal line after `prices`: the divergence of each
/// prefix whose length reaches the long interval.
pub open spec fn signal_feed(cfg: MacdConfig, prices: Seq<int>) -> Seq<int>
    decreases prices.len(),
{
    if prices.len() == 0 {
        Seq::empty()
    } else {
        let prev = signal_feed(cfg, prices.drop_last());
        if prices.len() >= cfg.long_interval {
            prev.push(macd_line(cfg, prices))
        } else {
            prev
        }
    }
}

/// The signal value of the latest tick after `prices`: the signal line's raw
/// output once the long line is stable, else `0`.
pub open spec fn macd_signal(cfg: MacdConfig, prices: Seq<int>) -> int {
    if prices.len() > 0 && prices.len() >= cfg.long_interval {
        line_fold(cfg.indicator, cfg.signal_interval as int, signal_feed(cfg, prices))
    } else {
        0
    }
}

/// A configuration whose three intervals are all positive.
pub open spec fn valid_config(cfg: MacdConfig) -> bool {
    cfg.long_interval > 0 && cfg.short_interval > 0 && cfg.signal_interval > 0
}

/// Prices are bounded by `b`, so the divergence fed to the signal line is
/// bounded by `6 * b`.
pub proof fn lemma_signal_feed_bound(cfg: MacdConfig, prices: Seq<int>, b: int)
    requires
        valid_config(cfg),
        b >= 0,
        bounded_by(prices, b),
    ensures
        bounded_by(signal_feed(cfg, prices), 6 * b),
    decreases prices.len(),
{
    if prices.len() > 0 {
        let pre = prices.drop_last();
        assert(bounded_by(pre, b)) by {
            assert forall|k: int| 0 <= k < pre.len() implies -b <= #[trigger] pre[k] <= b by {
                assert(pre[k] == prices[k]);
            }
        }
        lemma_signal_feed_bound(cfg, pre, b);
        lemma_line_bound(cfg.indicator, cfg.short_interval as int, prices, b);
        lemma_line_bound(cfg.indicator, cfg.long_interval as int, prices, b);
        let prev = signal_feed(cfg, pre);
        let m = macd_line(cfg, prices);
        assert(bounded_by(prev.push(m), 6 * b)) by {
            assert forall|k: int| 0 <= k < prev.len() + 1 implies -6 * b <= #[trigger] prev.push(
                m,
            )[k] <= 6 * b by {
                if k < prev.len() {
                    assert(prev.push(m)[k] == prev[k]);
                }
            }
        }
    }
}

/// The MACD oscillator: short and long line indicators on the prices, and
/// a signal line on their divergence that is fed once the long line is
/// stable.
pub struct InternalMacd {
    long: LineIndicator,
    short: LineIndicator,
    signal: LineIndicator,
    result: MacdResult,
    config: MacdConfig,
    history: Ghost<Seq<int>>,
}

impl InternalMacd {
    /// The configuration the engine was built with.
    pub closed spec fn config(&self) -> MacdConfig {
        self.config
    }

    /// Every price fed so far, oldest first.
    pub closed spec fn history(&self) -> Seq<int> {
        self.history@
    }

    /// The readout cached by the latest update.
    pub closed spec fn cached(&self) -> MacdResult {
        self.result
    }

    /// The internal invariant.
    pub closed spec fn wf(&self) -> bool {
        let cfg = self.config;
        let h = self.history@;
        &&& valid_config(cfg)
        &&& self.long.wf()
        &&& self.short.wf()
        &&& self.signal.wf()
        &&& self.long.kind() == cfg.indicator
        &&& self.short.kind() == cfg.indicator
        &&& self.signal.kind() == cfg.indicator
        &&& self.long.interval() == cfg.long_interval
        &&& self.short.interval() == cfg.short_interval
        &&& self.signal.interval() == cfg.signal_interval
        &&& self.long.history() == h
        &&& self.short.history() == h
        &&& self.signal.history() == signal_feed(cfg, h)
        &&& bounded_by(h, PRICE_LIMIT as int)
        &&& self.result.macd == macd_line(cfg, h)
        &&& self.result.signal == macd_signal(cfg, h)
        &&& self.result.histogram == self.result.macd - self.result.signal
    }

    /// A MACD engine whose three lines are of the configured kind and
    /// intervals, with nothing fed yet.
    pub fn new(config: MacdConfig) -> (r: Self)
        requires
            valid_config(config),
        ensures
            r.wf(),
            r.config() == config,
            r.history() == Seq::<int>::empty(),
    {
        InternalMacd {
            long: get_indicator(config.indicator, config.long_interval),
            short: get_indicator(config.indicator, config.short_interval),
            signal: get_indicator(config.indicator, config.signal_interval),
            result: MacdResult { histogram: 0, macd: 0, signal: 0 },
            config,
            history: Ghost(Seq::empty()),
        }
    }

    /// Feeds one price and returns the freshly computed readout, whether or
    /// not the warm-up is over.
    pub fn update(&mut self, price: i64) -> (r: MacdResult)
        requires
            old(self).wf(),
            -PRICE_LIMIT <= price <= PRICE_LIMIT,
        ensures
            final(self).wf(),
            final(self).config() == old(self).config(),
            final(self).history() == old(self).history().push(price as int),
            r == final(self).cached(),
            r.macd == macd_line(final(self).config(), final(self).history()),
            r.signal == macd_signal(final(self).config(), final(self).history()),
            r.histogram == r.macd - r.signal,
    {
        self.fast_update(price);
        self.result
    }

    /// Feeds one price, advancing the state exactly as `update` does, and
    /// reports success.
    pub fn fast_update(&mut self, price: i64) -> (r: bool)
        requires
            old(self).wf(),
            -PRICE_LIMIT <= price <= PRICE_LIMIT,
        ensures
            r,
            final(self).wf(),
            final(self).config() == old(self).config(),
            final(self).history() == old(self).history().push(price as int),
            final(self).cached().macd == macd_line(final(self).config(), final(self).history()),
            final(self).cached().signal == macd_signal(final(self).config(), final(self).history()),
            final(self).cached().histogram == final(self).cached().macd - final(self).cached().signal,
    {
        let ghost cfg = self.config;
        let ghost h = self.history@;
        let ghost nh = h.push(price as int);
        let ghost p = PRICE_LIMIT as int;
        proof {
            assert(bounded_by(nh, p)) by {
                assert forall|k: int| 0 <= k < nh.len() implies -p <= #[trigger] nh[k] <= p by {
                    if k < h.len() {
                        assert(nh[k] == h[k]);
                    }
                }
            }
            lemma_line_bound(cfg.indicator, cfg.short_interval as int, nh, p);
            lemma_line_bound(cfg.indicator, cfg.long_interval as int, nh, p);
            assert(nh.drop_last() =~= h);
            lemma_signal_feed_bound(cfg, nh, p);
            lemma_line_bound(cfg.indicator, cfg.signal_interval as int, signal_feed(cfg, nh), 6 * p);
        }
        let short = self.short.update(price);
        let long = self.long.update(price);
        let macd = short - long;
        let signal = if self.long.is_stable() {
            self.signal.update(macd)
        } else {
            0
        };
        let histogram = macd - signal;
        self.result = MacdResult { histogram, macd, signal };
        self.history = Ghost(nh);
        true
    }

    /// The cached readout once the long line is stable, else all zeros.
    pub fn get_result(&self) -> (r: MacdResult)
        requires
            self.wf(),
        ensures
            r == (if self.history().len() >= self.config().long_interval {
                self.cached()
            } else {
                MacdResult { histogram: 0, macd: 0, signal: 0 }
            }),
            r.macd == gated(
                self.history().len() >= self.config().long_interval,
                macd_line(self.config(), self.history()),
            ),
            r.signal == gated(
                self.history().len() >= self.config().long_interval,
                macd_signal(self.config(), self.history()),
            ),
            r.histogram == r.macd - r.signal,
    {
        if !self.is_stable() {
            return MacdResult { histogram: 0, macd: 0, signal: 0 };
        }
        self.result
    }

    /// Whether the long line is stable: at least `long_interval` prices
    /// were fed.
    pub fn is_stable(&self) -> (r: bool)
        requires
            self.wf(),
        ensures
            r == (self.history().len() >= self.config().long_interval),
    {
        self.long.is_stable()
    }
}

/// Before the long line is stable nothing is fed to the signal line.
pub proof fn lemma_signal_feed_empty(cfg: MacdConfig, prices: Seq<int>)
    requires
        prices.len() < cfg.long_interval,
    ensures
        signal_feed(cfg, prices) == Seq::<int>::empty(),
    decreases prices.len(),
{
    if prices.len() > 0 {
        lemma_signal_feed_empty(cfg, prices.drop_last());
    }
}

/// On the tick on which the long line becomes stable, the signal line has
/// been fed exactly once, with that tick's divergence, and the signal shown
/// is its output on that single value, which is that divergence itself.
pub proof fn lemma_first_signal(cfg: MacdConfig, prices: Seq<int>)
    requires
        valid_config(cfg),
        prices.len() == cfg.long_interval,
    ensures
        signal_feed(cfg, prices) == seq![macd_line(cfg, prices)],
        macd_signal(cfg, prices) == line_fold(
            cfg.indicator,
            cfg.signal_interval as int,
            seq![macd_line(cfg, prices)],
        ),
        macd_signal(cfg, prices) == macd_line(cfg, prices),
{
    let m = macd_line(cfg, prices);
    let s = cfg.signal_interval as int;
    lemma_signal_feed_empty(cfg, prices.drop_last());
    assert(Seq::<int>::empty().push(m) =~= seq![m]);
    lemma_first_value(s, m);
    let t = ema_trace(s, seq![m]);
    assert(seq![m].take(1) =~= seq![m]);
    assert(t =~= seq![m]);
}

/// The histogram of the cached readout is always its divergence minus its
/// signal.
pub proof fn lemma_histogram(m: &InternalMacd)
    requires
        m.wf(),
    ensures
        m.cached().histogram == m.cached().macd - m.cached().signal,
{
}

proof fn lemma_line_replay(a: LineIndicator, b: LineIndicator)
    requires
        a.wf(),
        b.wf(),
        a.kind() == b.kind(),
        a.interval() == b.interval(),
        a.history() == b.history(),
    ensures
        a == b,
{
    match (a, b) {
        (LineIndicator::Ema(x), LineIndicator::Ema(y)) => lemma_ema_replay(x, y),
        (LineIndicator::Dema(x), LineIndicator::Dema(y)) => lemma_dema_replay(x, y),
        _ => {},
    }
}

/// Replaying: two MACD engines with the same configuration that were fed the
/// same prices are in the same state, so they answer every later call alike.
pub proof fn lemma_macd_replay(a: InternalMacd, b: InternalMacd)
    requires
        a.wf(),
        b.wf(),
        a.config() == b.config(),
        a.history() == b.history(),
    ensures
        a == b,
{
    lemma_line_replay(a.long, b.long);
    lemma_line_replay(a.short, b.short);
    lemma_line_replay(a.signal, b.signal);
}

} // verus!
