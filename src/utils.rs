//! The running-extrema tracker and sequence helpers shared by the engines.
use vstd::prelude::*;

verus! {

/// Largest magnitude of a value that a line indicator (EMA or DEMA) accepts.
pub const LINE_LIMIT: i64 = 0x0800_0000_0000_0000;

/// Every element of `s` lies within `[-b, b]`.
pub open spec fn bounded_by(s: Seq<int>, b: int) -> bool {
    forall|k: int| 0 <= k < s.len() ==> -b <= #[trigger] s[k] <= b
}

/// The value a gated readout shows: the raw value once stable, else `0`.
pub open spec fn gated(stable: bool, v: int) -> int {
    if stable {
        v
    } else {
        0
    }
}


/// The largest element of `s`; `0` for an empty sequence.
pub open spec fn seq_max(s: Seq<int>) -> int
    decreases s.len(),
{
    if s.len() == 0 {
        0
    } else if s.len() == 1 {
        s[0]
    } else {
        let m = seq_max(s.drop_last());
        if s.last() > m {
            s.last()
        } else {
            m
        }
    }
}

/// The smallest element of `s`; `0` for an empty sequence.
pub open spec fn seq_min(s: Seq<int>) -> int
    decreases s.len(),
{
    if s.len() == 0 {
        0
    } else if s.len() == 1 {
        s[0]
    } else {
        let m = seq_min(s.drop_last());
        if s.last() < m {
            s.last()
        } else {
            m
        }
    }
}

/// Records `value` as the latest result and folds it into the running
/// extrema: the first call sets both extrema to `value`, each later call
/// widens them as needed.
pub fn set_result(
    value: i64,
    result: &mut i64,
    highest: &mut i64,
    lowest: &mut i64,
    initialized: &mut bool,
) -> (r: bool)
    ensures
        r,
        *final(result) == value,
        *final(initialized),
        *final(highest) == if !*old(initialized) || value > *old(highest) {
            value
        } else {
            *old(highest)
        },
        *final(lowest) == if !*old(initialized) || value < *old(lowest) {
            value
        } else {
            *old(lowest)
        },
{
    if !*initialized {
        *highest = value;
        *lowest = value;
        *initialized = true;
    }
    if value > *highest {
        *highest = value;
    }
    if value < *lowest {
        *lowest = value;
    }
    *result = value;
    true
}

/// The operations every line indicator offers: feed a value, read the raw
/// output back, read the gated output, and ask whether the warm-up is over.
pub trait MaIndicator: Sized {
    /// The smoothing window length.
    spec fn interval(&self) -> int;

    /// Every value fed so far, oldest first.
    spec fn history(&self) -> Seq<int>;

    /// The internal invariant.
    spec fn wf(&self) -> bool;

    /// The raw output of an indicator of this type after `prices`.
    spec fn raw_after(interval: int, prices: Seq<int>) -> int;

    /// An indicator over windows of `interval` values, with nothing fed yet.
    fn new(interval: u64) -> (r: Self)
        requires
            interval > 0,
        ensures
            r.wf(),
            r.interval() == interval,
            r.history() == Seq::<int>::empty(),
    ;

    /// The raw output once `interval` values have been fed, else `0`.
    fn get_result(&self) -> (r: i64)
        requires
            self.wf(),
        ensures
            r == gated(
                self.history().len() >= self.interval(),
                Self::raw_after(self.interval(), self.history()),
            ),
    ;

    /// Feeds one value and returns the freshly computed raw output, whether
    /// or not the warm-up is over.
    fn update(&mut self, price: i64) -> (r: i64)
        requires
            old(self).wf(),
            -LINE_LIMIT <= price <= LINE_LIMIT,
        ensures
            final(self).wf(),
            final(self).interval() == old(self).interval(),
            final(self).history() == old(self).history().push(price as int),
            r == Self::raw_after(final(self).interval(), final(self).history()),
    ;

    /// Whether the warm-up is over: at least `interval` values were fed.
    fn is_stable(&self) -> (r: bool)
        requires
            self.wf(),
        ensures
            r == (self.history().len() >= self.interval()),
    ;
}

} // verus!
