//! The client-side request limit of the login service: at most so many
//! requests are remembered within a sliding window.

use vstd::prelude::*;

verus! {

/// The request times after `cutoff`, in order.
pub open spec fn after_cutoff(s: Seq<u64>, cutoff: u64) -> Seq<u64>
    decreases s.len(),
{
    if s.len() == 0 {
        seq![]
    } else if s.last() > cutoff {
        after_cutoff(s.drop_last(), cutoff).push(s.last())
    } else {
        after_cutoff(s.drop_last(), cutoff)
    }
}

/// A sliding window of request times.
pub struct RateLimiter {
    max_requests: u32,
    window_ms: u64,
    requests: Vec<u64>,
}

impl RateLimiter {
    /// The times of the requests remembered.
    pub closed spec fn times(&self) -> Seq<u64> {
        self.requests@
    }

    pub closed spec fn max(&self) -> u32 {
        self.max_requests
    }

    pub closed spec fn window(&self) -> u64 {
        self.window_ms
    }

    pub fn new(max_requests: u32, window_ms: u64) -> (r: Self)
        ensures
            r.times() == Seq::<u64>::empty(),
            r.max() == max_requests,
            r.window() == window_ms,
    {
        RateLimiter { max_requests, window_ms, requests: Vec::new() }
    }

    /// Forgets the requests made before the window that ends at `now`.
    pub fn clean_old(&mut self, now: u64)
        ensures
            final(self).times() == after_cutoff(
                old(self).times(),
                crate::proxy_capture::sat_sub(now, old(self).window()),
            ),
            final(self).max() == old(self).max(),
            final(self).window() == old(self).window(),
    {
        let cutoff = now.saturating_sub(self.window_ms);
        let mut kept: Vec<u64> = Vec::new();
        let mut i: usize = 0;
        while i < self.requests.len()
            invariant
                i <= self.requests@.len(),
                kept@ == after_cutoff(self.requests@.take(i as int), cutoff),
            decreases self.requests@.len() - i,
        {
            assert(self.requests@.take(i + 1).drop_last() =~= self.requests@.take(i as int));
            let t = self.requests[i];
            if t > cutoff {
                kept.push(t);
            }
            i = i + 1;
        }
        assert(self.requests@.take(self.requests@.len() as int) =~= self.requests@);
        self.requests = kept;
    }

    /// Records a request at `now`, after forgetting old ones, unless the
    /// window is full.
    pub fn add_request(&mut self, now: u64)
        ensures
            ({
                let kept = after_cutoff(
                    old(self).times(),
                    crate::proxy_capture::sat_sub(now, old(self).window()),
                );
                final(self).times() == if kept.len() < old(self).max() {
                    kept.push(now)
                } else {
                    kept
                }
            }),
            final(self).max() == old(self).max(),
            final(self).window() == old(self).window(),
    {
        self.clean_old(now);
        if self.requests.len() < self.max_requests as usize {
            self.requests.push(now);
        }
    }
}

/// A window never holds more requests than its limit, whatever times the
/// requests come at.
pub proof fn law_window_bounded(s: Seq<u64>, max: u32, cutoff: u64, now: u64)
    requires
        s.len() <= max,
    ensures
        ({
            let kept = after_cutoff(s, cutoff);
            (if kept.len() < max {
                kept.push(now)
            } else {
                kept
            }).len() <= max
        }),
{
    lemma_after_cutoff_len(s, cutoff);
}

proof fn lemma_after_cutoff_len(s: Seq<u64>, cutoff: u64)
    ensures
        after_cutoff(s, cutoff).len() <= s.len(),
    decreases s.len(),
{
    if s.len() > 0 {
        lemma_after_cutoff_len(s.drop_last(), cutoff);
    }
}

} // verus!
