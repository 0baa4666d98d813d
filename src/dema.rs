//! The double exponential moving average engine.
use crate::ema::{ema_fold, lemma_ema_replay, lemma_fold_bound, InternalEma};
use crate::utils::{bounded_by, seq_max, seq_min, set_result, MaIndicator, LINE_LIMIT};
use vstd::prelude::*;

verus! {

/// The raw EMA after each prefix of `prices`: the stream an EMA emits.
pub open spec fn ema_trace(interval: int, prices: Seq<int>) -> Seq<int> {
    Seq::new(prices.len(), |k: int| ema_fold(interval, prices.take(k + 1)))
}

/// The raw DEMA after the whole of `prices`: twice the EMA of the prices
/// minus the EMA of the EMA stream.
pub open spec fn dema_fold(interval: int, prices: Seq<int>) -> int {
    2 * ema_fold(interval, prices) - ema_fold(interval, ema_trace(interval, prices))
}

/// The raw DEMA after each prefix of `prices`: the stream a DEMA emits.
pub open spec fn dema_trace(interval: int, prices: Seq<int>) -> Seq<int> {
    Seq::new(prices.len(), |k: int| dema_fold(interval, prices.take(k + 1)))
}

proof fn lemma_take_push(h: Seq<int>, p: int, k: int)
    requires
        0 <= k < h.len(),
    ensures
        h.push(p).take(k + 1) == h.take(k + 1),
{
    assert(h.push(p).take(k + 1) =~= h.take(k + 1));
}

/// Feeding one more price extends both emitted streams by one value.
pub proof fn lemma_traces_push(interval: int, h: Seq<int>, p: int)
    ensures
        ema_trace(interval, h.push(p)) == ema_trace(interval, h).push(
            ema_fold(interval, h.push(p)),
        ),
        dema_trace(interval, h.push(p)) == dema_trace(interval, h).push(
            dema_fold(interval, h.push(p)),
        ),
{
    let nh = h.push(p);
    assert(nh.take(nh.len() as int) =~= nh);
    assert forall|k: int| 0 <= k < h.len() implies #[trigger] nh.take(k + 1) == h.take(k + 1) by {
        lemma_take_push(h, p, k);
    }
    assert(ema_trace(interval, nh) =~= ema_trace(interval, h).push(ema_fold(interval, nh)));
    assert(dema_trace(interval, nh) =~= dema_trace(interval, h).push(dema_fold(interval, nh)));
}

/// The EMA stream of prices bounded by `b` is bounded by `b`.
pub proof fn lemma_trace_bound(interval: int, h: Seq<int>, b: int)
    requires
        interval >= 1,
        b >= 0,
        bounded_by(h, b),
    ensures
        bounded_by(ema_trace(interval, h), b),
{
    assert forall|k: int| 0 <= k < h.len() implies -b <= #[trigger] ema_trace(interval, h)[k]
        <= b by {
        let t = h.take(k + 1);
        assert(bounded_by(t, b)) by {
            assert forall|j: int| 0 <= j < t.len() implies -b <= #[trigger] t[j] <= b by {
                assert(t[j] == h[j]);
            }
        }
        lemma_fold_bound(interval, t, b);
    }
}

/// The raw DEMA of prices bounded by `b` is bounded by `3 * b`.
pub proof fn lemma_dema_bound(interval: int, h: Seq<int>, b: int)
    requires
        interval >= 1,
        b >= 0,
        bounded_by(h, b),
    ensures
        -3 * b <= dema_fold(interval, h) <= 3 * b,
{
    lemma_fold_bound(interval, h, b);
    lemma_trace_bound(interval, h, b);
    lemma_fold_bound(interval, ema_trace(interval, h), b);
}

/// Double exponential moving average: an inner EMA of the prices, an outer
/// EMA of the inner one's raw stream, and the running extrema of its own
/// output.
pub struct InternalDema {
    inner: InternalEma,
    outer: InternalEma,
    result: i64,
    lowest: i64,
    highest: i64,
    initialized: bool,
    interval: u64,
}

impl MaIndicator for InternalDema {
    /// The smoothing window length.
    closed spec fn interval(&self) -> int {
        self.interval as int
    }

    /// Every price fed so far, oldest first.
    closed spec fn history(&self) -> Seq<int> {
        self.inner.history()
    }

    open spec fn raw_after(interval: int, prices: Seq<int>) -> int {
        dema_fold(interval, prices)
    }

    /// The internal invariant.
    closed spec fn wf(&self) -> bool {
        let i = self.interval as int;
        let h = self.inner.history();
        &&& self.interval >= 1
        &&& self.inner.wf()
        &&& self.outer.wf()
        &&& self.inner.interval() == i
        &&& self.outer.interval() == i
        &&& bounded_by(h, LINE_LIMIT as int)
        &&& self.outer.history() == ema_trace(i, h)
        &&& self.initialized == (h.len() > 0)
        &&& self.result == dema_fold(i, h)
        &&& self.highest == seq_max(dema_trace(i, h))
        &&& self.lowest == seq_min(dema_trace(i, h))
    }

    /// A DEMA over windows of `interval` prices, with nothing fed yet.
    fn new(interval: u64) -> (r: Self) {
        let r = InternalDema {
            inner: InternalEma::new(interval),
            outer: InternalEma::new(interval),
            highest: 0,
            lowest: 0,
            result: 0,
            initialized: false,
            interval,
        };
        assert(ema_trace(interval as int, Seq::<int>::empty()) =~= Seq::<int>::empty());
        assert(dema_trace(interval as int, Seq::<int>::empty()) =~= Seq::<int>::empty());
        r
    }

    /// Feeds one price and returns the freshly computed raw DEMA, whether or
    /// not the warm-up is over.
    fn update(&mut self, price: i64) -> (r: i64) {
        let ghost i = self.interval as int;
        let ghost h = self.inner.history();
        let ghost nh = h.push(price as int);
        let ghost dt = dema_trace(i, h);
        proof {
            assert(bounded_by(nh, LINE_LIMIT as int)) by {
                assert forall|k: int| 0 <= k < nh.len() implies -LINE_LIMIT <= #[trigger] nh[k]
                    <= LINE_LIMIT by {
                    if k < h.len() {
                        assert(nh[k] == h[k]);
                    }
                }
            }
            lemma_fold_bound(i, nh, LINE_LIMIT as int);
            lemma_traces_push(i, h, price as int);
            lemma_trace_bound(i, nh, LINE_LIMIT as int);
            lemma_fold_bound(i, ema_trace(i, nh), LINE_LIMIT as int);
        }
        let a = self.inner.update(price);
        let b = self.outer.update(a);
        let value = 2 * a - b;
        set_result(value, &mut self.result, &mut self.highest, &mut self.lowest, &mut self.initialized);
        proof {
            let ndt = dt.push(value as int);
            assert(ndt.drop_last() =~= dt);
        }
        value
    }

    /// The DEMA once `interval` prices have been fed, else `0`.
    fn get_result(&self) -> (r: i64) {
        if !self.is_stable() {
            return 0;
        }
        self.result
    }

    /// Whether the warm-up is over: the outer EMA is stable, which happens
    /// after exactly `interval` prices.
    fn is_stable(&self) -> (r: bool) {
        self.outer.is_stable()
    }
}

impl InternalDema {
    /// The largest raw DEMA emitted so far (`0` before any price).
    pub fn highest(&self) -> (r: i64)
        requires
            self.wf(),
        ensures
            r == seq_max(dema_trace(self.interval(), self.history())),
    {
        self.highest
    }

    /// The smallest raw DEMA emitted so far (`0` before any price).
    pub fn lowest(&self) -> (r: i64)
        requires
            self.wf(),
        ensures
            r == seq_min(dema_trace(self.interval(), self.history())),
    {
        self.lowest
    }
}

/// Replaying: two DEMAs with the same interval that were fed the same prices
/// are in the same state, so they answer every later call alike.
pub proof fn lemma_dema_replay(a: InternalDema, b: InternalDema)
    requires
        a.wf(),
        b.wf(),
        a.interval() == b.interval(),
        a.history() == b.history(),
    ensures
        a == b,
{
    lemma_ema_replay(a.inner, b.inner);
    lemma_ema_replay(a.outer, b.outer);
}

} // verus!
