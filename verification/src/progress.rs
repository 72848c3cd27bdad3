//! Rate-limited progress reporting. The clock is read by the caller and handed in as
//! milliseconds; the ticker decides when a progress line is due and what it holds.
use vstd::prelude::*;

verus! {

/// How often progress is reported.
#[derive(Debug, Clone, Copy, PartialEq, Eq, Structural)]
pub struct ProgressConfig {
    pub log_interval_ms: u64,
}

/// What to report now.
#[derive(Debug, Clone, Copy, PartialEq, Eq, Structural)]
pub enum ProgressLine {
    /// Nothing: the interval has not passed yet.
    Skip,
    /// Units done out of a known, non-zero total (the caller adds the percentage).
    WithTotal { done: u64, total: u64 },
    /// Units done, total unknown.
    Plain { done: u64 },
}

/// Reports progress at most once per interval.
#[derive(Debug, Clone, Copy, PartialEq, Eq, Structural)]
pub struct ProgressTicker {
    config: ProgressConfig,
    next_log_at_ms: u64,
}

impl ProgressTicker {
    /// The time from which the next report is due.
    pub closed spec fn next_log_at(&self) -> u64 {
        self.next_log_at_ms
    }

    /// The reporting interval.
    pub closed spec fn interval(&self) -> u64 {
        self.config.log_interval_ms
    }

    /// A ticker started at `now_ms`: the first report is due one interval later.
    pub fn new(config: ProgressConfig, now_ms: u64) -> (t: Self)
        requires
            now_ms + config.log_interval_ms <= u64::MAX,
        ensures
            t.interval() == config.log_interval_ms,
            t.next_log_at() == now_ms + config.log_interval_ms,
    {
        ProgressTicker { config, next_log_at_ms: now_ms + config.log_interval_ms }
    }

    /// Decides whether to report at `now_ms`: before the due time nothing is reported and
    /// nothing changes; otherwise the next report is due one interval after now, and the
    /// line holds the total when a non-zero one is known.
    pub fn maybe_log(&mut self, now_ms: u64, done_units: u64, total_units: Option<u64>) -> (r: ProgressLine)
        requires
            now_ms + old(self).interval() <= u64::MAX,
        ensures
            final(self).interval() == old(self).interval(),
            now_ms < old(self).next_log_at() ==> r == ProgressLine::Skip && final(self).next_log_at()
                == old(self).next_log_at(),
            now_ms >= old(self).next_log_at() ==> final(self).next_log_at() == now_ms + old(
                self,
            ).interval() && r == match total_units {
                Some(t) => if t > 0 {
                    ProgressLine::WithTotal { done: done_units, total: t }
                } else {
                    ProgressLine::Plain { done: done_units }
                },
                None => ProgressLine::Plain { done: done_units },
            },
    {
        if now_ms < self.next_log_at_ms {
            return ProgressLine::Skip;
        }
        self.next_log_at_ms = now_ms + self.config.log_interval_ms;
        match total_units {
            Some(t) => if t > 0 {
                ProgressLine::WithTotal { done: done_units, total: t }
            } else {
                ProgressLine::Plain { done: done_units }
            },
            None => ProgressLine::Plain { done: done_units },
        }
    }
}

} // verus!
