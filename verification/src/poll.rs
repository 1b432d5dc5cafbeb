//! How long an idle feeder waits before polling for work again.
use vstd::prelude::*;

verus! {

/// The largest wait that can still be doubled.
pub open spec fn doubling_limit() -> u64 {
    u64::MAX / 2
}

/// An exponential backoff: it starts at the minimum, doubles after each
/// poll that found no work (up to the maximum), and returns to the minimum
/// when work is found.
pub struct Backoff {
    pub current_ms: u64,
    pub min_ms: u64,
    pub max_ms: u64,
}

impl Backoff {
    /// The wait lies between the minimum and the maximum.
    pub open spec fn in_bounds(&self) -> bool {
        self.min_ms <= self.current_ms && self.current_ms <= self.max_ms
    }

    /// A backoff that starts at `min_ms`.
    pub fn new(min_ms: u64, max_ms: u64) -> (b: Backoff)
        ensures
            b.current_ms == min_ms,
            b.min_ms == min_ms,
            b.max_ms == max_ms,
            min_ms <= max_ms ==> b.in_bounds(),
    {
        Backoff { current_ms: min_ms, min_ms, max_ms }
    }

    /// Whether the wait can be doubled without overflow.
    pub fn can_double(&self) -> (res: bool)
        ensures
            res == (self.current_ms <= doubling_limit()),
    {
        self.current_ms <= u64::MAX / 2
    }

    /// After a poll without work (or a failed one): double the wait, but
    /// wait no longer than the maximum.
    pub fn on_idle(&mut self)
        requires
            old(self).current_ms <= doubling_limit(),
        ensures
            final(self).min_ms == old(self).min_ms,
            final(self).max_ms == old(self).max_ms,
            final(self).current_ms == if 2 * old(self).current_ms <= old(self).max_ms {
                2 * old(self).current_ms
            } else {
                old(self).max_ms as int
            },
            final(self).current_ms <= final(self).max_ms,
            old(self).in_bounds() ==> final(self).in_bounds(),
    {
        let doubled = self.current_ms * 2;
        self.current_ms = if doubled <= self.max_ms {
            doubled
        } else {
            self.max_ms
        };
    }

    /// After a poll that found work: back to the minimum wait.
    pub fn on_work(&mut self)
        ensures
            final(self).min_ms == old(self).min_ms,
            final(self).max_ms == old(self).max_ms,
            final(self).current_ms == old(self).min_ms,
            old(self).min_ms <= old(self).max_ms ==> final(self).in_bounds(),
    {
        self.current_ms = self.min_ms;
    }
}

} // verus!
