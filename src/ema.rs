//! The exponential moving average engine.
use crate::utils::{bounded_by, MaIndicator, LINE_LIMIT};
use vstd::arithmetic::div_mod::{lemma_div_multiples_vanish, lemma_fundamental_div_mod};
use vstd::prelude::*;

verus! {

/// One smoothing step with weight `2 / (interval + 1)`:
/// `price * w + prev * (1 - w)`, rounded toward negative infinity.
pub open spec fn ema_step(interval: int, prev: int, price: int) -> int {
    (2 * price + (interval - 1) * prev) / (interval + 1)
}

/// The raw EMA after the whole of `prices` has been fed, seeded with the
/// first price; `0` before any price.
pub open spec fn ema_fold(interval: int, prices: Seq<int>) -> int
    decreases prices.len(),
{
    if prices.len() == 0 {
        0
    } else {
        let prev = if prices.len() == 1 {
            prices[0]
        } else {
            ema_fold(interval, prices.drop_last())
        };
        ema_step(interval, prev, prices.last())
    }
}

/// The first raw value is exactly the first price.
pub proof fn lemma_first_value(interval: int, price: int)
    requires
        interval >= 1,
    ensures
        ema_fold(interval, seq![price]) == price,
{
    assert(2 * price + (interval - 1) * price == (interval + 1) * price) by (nonlinear_arith);
    lemma_div_multiples_vanish(price, interval + 1);
}

/// A smoothing step stays within the bound of its two inputs.
pub proof fn lemma_step_bound(interval: int, prev: int, price: int, b: int)
    requires
        interval >= 1,
        -b <= prev <= b,
        -b <= price <= b,
    ensures
        -b <= ema_step(interval, prev, price) <= b,
{
    let num = 2 * price + (interval - 1) * prev;
    let d = interval + 1;
    assert(-b * d <= num <= b * d) by (nonlinear_arith)
        requires
            num == 2 * price + (interval - 1) * prev,
            d == interval + 1,
            interval >= 1,
            -b <= prev <= b,
            -b <= price <= b,
    ;
    lemma_fundamental_div_mod(num, d);
    let q = num / d;
    let r = num % d;
    assert(-b <= q <= b) by (nonlinear_arith)
        requires
            num == d * q + r,
            0 <= r < d,
            -b * d <= num <= b * d,
            d >= 2,
    ;
}

/// The raw EMA of prices bounded by `b` is bounded by `b`.
pub proof fn lemma_fold_bound(interval: int, prices: Seq<int>, b: int)
    requires
        interval >= 1,
        b >= 0,
        bounded_by(prices, b),
    ensures
        -b <= ema_fold(interval, prices) <= b,
    decreases prices.len(),
{
    if prices.len() > 1 {
        let pre = prices.drop_last();
        assert(bounded_by(pre, b)) by {
            assert forall|k: int| 0 <= k < pre.len() implies -b <= #[trigger] pre[k] <= b by {
                assert(pre[k] == prices[k]);
            }
        }
        lemma_fold_bound(interval, pre, b);
        lemma_step_bound(interval, ema_fold(interval, pre), prices.last(), b);
    } else if prices.len() == 1 {
        lemma_step_bound(interval, prices[0], prices[0], b);
    }
}

/// Exponential moving average of a price stream, with a warm-up of
/// `interval` prices.
pub struct InternalEma {
    interval: u64,
    prices_counter: u64,
    result: i64,
    initialized: bool,
    history: Ghost<Seq<int>>,
}

impl MaIndicator for InternalEma {
    /// The smoothing window length.
    closed spec fn interval(&self) -> int {
        self.interval as int
    }

    /// Every price fed so far, oldest first.
    closed spec fn history(&self) -> Seq<int> {
        self.history@
    }

    open spec fn raw_after(interval: int, prices: Seq<int>) -> int {
        ema_fold(interval, prices)
    }

    /// The internal invariant.
    closed spec fn wf(&self) -> bool {
        &&& self.interval >= 1
        &&& bounded_by(self.history@, LINE_LIMIT as int)
        &&& self.prices_counter as int == if self.history@.len() < u64::MAX {
            self.history@.len() as int
        } else {
            u64::MAX as int
        }
        &&& self.initialized == (self.history@.len() > 0)
        &&& self.result == ema_fold(self.interval as int, self.history@)
    }

    /// An average over windows of `interval` prices, with nothing fed yet.
    fn new(interval: u64) -> (r: Self) {
        InternalEma {
            interval,
            prices_counter: 0,
            result: 0,
            initialized: false,
            history: Ghost(Seq::empty()),
        }
    }

    /// Feeds one price and returns the freshly computed raw average,
    /// whether or not the warm-up is over.
    fn update(&mut self, price: i64) -> (r: i64) {
        let ghost h = self.history@;
        let ghost nh = h.push(price as int);
        self.prices_counter = self.prices_counter.saturating_add(1);
        if !self.initialized {
            self.result = price;
            self.initialized = true;
        }
        proof {
            lemma_fold_bound(self.interval as int, h, LINE_LIMIT as int);
            assert(nh.drop_last() =~= h);
        }
        let a: i128 = (self.interval - 1) as i128;
        let v: i128 = self.result as i128;
        assert(-0x1000_0000_0000_0000_0000_0000_0000_0000 <= a * v <= 0x1000_0000_0000_0000_0000_0000_0000_0000)
            by (nonlinear_arith)
            requires
                0 <= a <= 0x1_0000_0000_0000_0000,
                -LINE_LIMIT <= v <= LINE_LIMIT,
        ;
        let num: i128 = 2 * (price as i128) + a * v;
        let den: i128 = self.interval as i128 + 1;
        proof {
            lemma_step_bound(self.interval as int, self.result as int, price as int, LINE_LIMIT as int);
        }
        let q: i128 = match num.checked_div_euclid(den) {
            Some(q) => q,
            None => 0,
        };
        self.result = q as i64;
        self.history = Ghost(nh);
        proof {
            assert(bounded_by(nh, LINE_LIMIT as int)) by {
                assert forall|k: int| 0 <= k < nh.len() implies -LINE_LIMIT <= #[trigger] nh[k]
                    <= LINE_LIMIT by {
                    if k < h.len() {
                        assert(nh[k] == h[k]);
                    }
                }
            }
        }
        self.result
    }

    /// The average once `interval` prices have been fed, else `0`.
    fn get_result(&self) -> (r: i64) {
        if !self.is_stable() {
            return 0;
        }
        self.result
    }

    /// Whether the warm-up is over: at least `interval` prices were fed.
    fn is_stable(&self) -> (r: bool) {
        self.prices_counter >= self.interval
    }
}

/// Replaying: two averages with the same interval that were fed the same
/// prices are in the same state, so they answer every later call alike.
pub proof fn lemma_ema_replay(a: InternalEma, b: InternalEma)
    requires
        a.wf(),
        b.wf(),
        a.interval() == b.interval(),
        a.history() == b.history(),
    ensures
        a == b,
{
}

} // verus!
