use vstd::prelude::*;
use crate::action::Action;

verus! {

/// Seconds in the rolling window of the per-action counters.
pub const DAY_SECS: u64 = 86_400;

pub open spec fn sat_inc(x: u64) -> u64 {
    if x == u64::MAX {
        u64::MAX
    } else {
        (x + 1) as u64
    }
}

/// Request counters and per-action decision counts over a rolling day.
pub struct Metrics {
    pub total_requests: u64,
    pub cache_hits: u64,
    pub cache_misses: u64,
    pub allow_count: u64,
    pub warn_count: u64,
    pub block_count: u64,
    /// Start of the current daily window, in seconds.
    pub window_start: u64,
}

impl Metrics {
    /// Zeroed counters; the window starts at `now_secs`.
    pub fn new(now_secs: u64) -> (r: Metrics)
        ensures
            r.total_requests == 0 && r.cache_hits == 0 && r.cache_misses == 0,
            r.allow_count == 0 && r.warn_count == 0 && r.block_count == 0,
            r.window_start == now_secs,
    {
        Metrics {
            total_requests: 0,
            cache_hits: 0,
            cache_misses: 0,
            allow_count: 0,
            warn_count: 0,
            block_count: 0,
            window_start: now_secs,
        }
    }

    /// Counts one request that was answered from the decision cache or not.
    pub fn observe_request(&mut self, cache_hit: bool)
        ensures
            final(self).total_requests == sat_inc(old(self).total_requests),
            final(self).cache_hits == if cache_hit { sat_inc(old(self).cache_hits) } else { old(self).cache_hits },
            final(self).cache_misses == if cache_hit { old(self).cache_misses } else { sat_inc(old(self).cache_misses) },
            final(self).allow_count == old(self).allow_count,
            final(self).warn_count == old(self).warn_count,
            final(self).block_count == old(self).block_count,
            final(self).window_start == old(self).window_start,
    {
        self.total_requests = self.total_requests.saturating_add(1);
        if cache_hit {
            self.cache_hits = self.cache_hits.saturating_add(1);
        } else {
            self.cache_misses = self.cache_misses.saturating_add(1);
        }
    }

    pub fn inc_cache_hit(&mut self)
        ensures
            final(self).cache_hits == sat_inc(old(self).cache_hits),
            final(self).total_requests == old(self).total_requests,
            final(self).cache_misses == old(self).cache_misses,
    {
        self.cache_hits = self.cache_hits.saturating_add(1);
    }

    /// Counts a decision; first resets the per-action counts when a day has
    /// passed since the window started.
    pub fn record_decision(&mut self, action: Action, now_secs: u64)
        ensures
            ({
                let rolled = now_secs >= old(self).window_start && now_secs - old(self).window_start >= DAY_SECS;
                let a0 = if rolled { 0 } else { old(self).allow_count };
                let w0 = if rolled { 0 } else { old(self).warn_count };
                let b0 = if rolled { 0 } else { old(self).block_count };
                &&& final(self).window_start == if rolled { now_secs } else { old(self).window_start }
                &&& final(self).allow_count == if action == Action::Allow { sat_inc(a0) } else { a0 }
                &&& final(self).warn_count == if action == Action::Warn { sat_inc(w0) } else { w0 }
                &&& final(self).block_count == if action == Action::Block { sat_inc(b0) } else { b0 }
            }),
            final(self).total_requests == old(self).total_requests,
            final(self).cache_hits == old(self).cache_hits,
            final(self).cache_misses == old(self).cache_misses,
    {
        if now_secs >= self.window_start && now_secs - self.window_start >= DAY_SECS {
            self.allow_count = 0;
            self.warn_count = 0;
            self.block_count = 0;
            self.window_start = now_secs;
        }
        match action {
            Action::Allow => self.allow_count = self.allow_count.saturating_add(1),
            Action::Warn => self.warn_count = self.warn_count.saturating_add(1),
            Action::Block => self.block_count = self.block_count.saturating_add(1),
        }
    }

    /// Decisions counted in the current window.
    pub fn decisions_today(&self) -> (r: u64)
        ensures
            r as int == if self.allow_count + self.warn_count + self.block_count > u64::MAX { u64::MAX as int } else { self.allow_count + self.warn_count + self.block_count },
    {
        self.allow_count.saturating_add(self.warn_count).saturating_add(self.block_count)
    }
}

} // verus!
