//! Request and query counters with averages. Durations are in microseconds.
use vstd::prelude::*;

verus! {

/// Counters over completed requests and queries.
#[derive(Debug, Clone)]
pub struct PerformanceStats {
    pub total_requests: usize,
    pub total_duration_us: u64,
    pub error_count: usize,
    /// Distinct status codes with how often each was seen.
    pub status_codes: Vec<(u16, usize)>,
    pub sql_queries: usize,
    pub total_sql_duration_us: u64,
    /// The rounded average response time in milliseconds after each request,
    /// the last hundred.
    pub response_time_history: Vec<u64>,
}

pub const MAX_HISTORY: usize = 100;

/// `n` divided by `d`, rounded down; 0 when `d` is 0.
pub open spec fn ratio(n: nat, d: nat) -> nat {
    if d == 0 {
        0
    } else {
        n / d
    }
}

/// The index of status `code` in `codes`, if counted.
pub open spec fn code_index_from(codes: Seq<(u16, usize)>, code: u16, i: int) -> Option<int>
    decreases codes.len() - i,
{
    if i < 0 || i >= codes.len() {
        None
    } else if codes[i].0 == code {
        Some(i)
    } else {
        code_index_from(codes, code, i + 1)
    }
}

impl Default for PerformanceStats {
    fn default() -> (r: PerformanceStats)
        ensures
            r.total_requests == 0 && r.total_duration_us == 0 && r.error_count == 0 && r.status_codes@.len() == 0
                && r.sql_queries == 0 && r.total_sql_duration_us == 0 && r.response_time_history@.len() == 0,
    {
        PerformanceStats {
            total_requests: 0,
            total_duration_us: 0,
            error_count: 0,
            status_codes: Vec::new(),
            sql_queries: 0,
            total_sql_duration_us: 0,
            response_time_history: Vec::new(),
        }
    }
}

impl PerformanceStats {
    /// The average response time in microseconds, rounded down; 0 without requests.
    pub fn avg_response_time_us(&self) -> (r: u64)
        ensures
            r as nat == ratio(self.total_duration_us as nat, self.total_requests as nat),
    {
        if self.total_requests > 0 {
            self.total_duration_us / (self.total_requests as u64)
        } else {
            0
        }
    }

    /// The share of requests that failed, in whole percent rounded down.
    pub fn error_rate_percent(&self) -> (r: u64)
        ensures
            r as nat == if ratio(self.error_count as nat * 100, self.total_requests as nat) <= u64::MAX {
                ratio(self.error_count as nat * 100, self.total_requests as nat)
            } else {
                u64::MAX as nat
            },
    {
        if self.total_requests > 0 {
            let q = (self.error_count as u128) * 100 / (self.total_requests as u128);
            if q > u64::MAX as u128 {
                u64::MAX
            } else {
                q as u64
            }
        } else {
            0
        }
    }

    /// The average query time in microseconds, rounded down; 0 without queries.
    pub fn avg_sql_time_us(&self) -> (r: u64)
        ensures
            r as nat == ratio(self.total_sql_duration_us as nat, self.sql_queries as nat),
    {
        if self.sql_queries > 0 {
            self.total_sql_duration_us / (self.sql_queries as u64)
        } else {
            0
        }
    }

    /// How many requests ended with `code`.
    pub fn status_count(&self, code: u16) -> (r: usize)
        ensures
            r == match code_index_from(self.status_codes@, code, 0) {
                Some(k) => self.status_codes@[k].1,
                None => 0,
            },
    {
        let mut i: usize = 0;
        while i < self.status_codes.len()
            invariant
                i <= self.status_codes@.len(),
                code_index_from(self.status_codes@, code, 0) == code_index_from(self.status_codes@, code, i as int),
            decreases self.status_codes.len() - i,
        {
            if self.status_codes[i].0 == code {
                return self.status_codes[i].1;
            }
            i += 1;
        }
        0
    }
}

/// Counts one more request with `status`.
fn count_status(codes: &mut Vec<(u16, usize)>, status: u16)
    ensures
        match code_index_from(old(codes)@, status, 0) {
            Some(k) => final(codes)@ == old(codes)@.update(k, (status, if old(codes)@[k].1 < usize::MAX {
                (old(codes)@[k].1 + 1) as usize
            } else {
                old(codes)@[k].1
            })),
            None => final(codes)@ == old(codes)@.push((status, 1usize)),
        },
{
    let mut i: usize = 0;
    while i < codes.len()
        invariant
            i <= codes@.len(),
            codes@ == old(codes)@,
            code_index_from(codes@, status, 0) == code_index_from(codes@, status, i as int),
        decreases codes.len() - i,
    {
        if codes[i].0 == status {
            let c = codes[i].1;
            codes.set(i, (status, c.saturating_add(1)));
            return;
        }
        i += 1;
    }
    codes.push((status, 1));
}

/// Collects request and query statistics.
pub struct StatsCollector {
    pub stats: PerformanceStats,
}

/// The average response time in whole milliseconds, rounded half up.
pub open spec fn rounded_avg_ms(total_us: nat, n: nat) -> nat {
    if n == 0 {
        0
    } else {
        (total_us + n * 500) / (n * 1000)
    }
}

impl StatsCollector {
    pub fn new() -> (r: StatsCollector)
        ensures
            r.stats.total_requests == 0 && r.stats.status_codes@.len() == 0 && r.stats.response_time_history@.len() == 0,
    {
        StatsCollector { stats: PerformanceStats::default() }
    }

    /// Counts a request with its status and duration; statuses from 400 up
    /// are errors. The running average joins the history.
    pub fn record_request(&mut self, status: u16, duration_us: u64)
        requires
            old(self).stats.response_time_history@.len() <= MAX_HISTORY,
        ensures
            final(self).stats.response_time_history@.len() <= MAX_HISTORY,
            final(self).stats.total_requests as int == if old(self).stats.total_requests < usize::MAX {
                old(self).stats.total_requests + 1
            } else {
                old(self).stats.total_requests as int
            },
            final(self).stats.error_count as int == if status >= 400 && old(self).stats.error_count < usize::MAX {
                old(self).stats.error_count + 1
            } else {
                old(self).stats.error_count as int
            },
            final(self).stats.response_time_history@.last() as nat == rounded_avg_ms(
                final(self).stats.total_duration_us as nat,
                final(self).stats.total_requests as nat,
            ),
            final(self).stats.sql_queries == old(self).stats.sql_queries,
    {
        let s = &mut self.stats;
        s.total_requests = s.total_requests.saturating_add(1);
        s.total_duration_us = s.total_duration_us.saturating_add(duration_us);
        if status >= 400 {
            s.error_count = s.error_count.saturating_add(1);
        }
        let n = s.total_requests as u128;
        let t = s.total_duration_us as u128;
        let q = (t + n * 500) / (n * 1000);
        assert(q <= u64::MAX) by (nonlinear_arith)
            requires
                n >= 1,
                n <= u64::MAX,
                t <= u64::MAX,
                q == (t + n * 500) / (n * 1000),
        {
        }
        let avg = q as u64;
        s.response_time_history.push(avg);
        if s.response_time_history.len() > MAX_HISTORY {
            s.response_time_history.remove(0);
        }
        count_status(&mut s.status_codes, status);
    }

    /// Counts a query and its duration.
    pub fn record_sql_query(&mut self, duration_us: u64)
        ensures
            final(self).stats.sql_queries as int == if old(self).stats.sql_queries < usize::MAX {
                old(self).stats.sql_queries + 1
            } else {
                old(self).stats.sql_queries as int
            },
            final(self).stats.total_sql_duration_us as int == if old(self).stats.total_sql_duration_us as int + duration_us <= u64::MAX {
                old(self).stats.total_sql_duration_us + duration_us
            } else {
                u64::MAX as int
            },
            final(self).stats.total_requests == old(self).stats.total_requests,
    {
        self.stats.sql_queries = self.stats.sql_queries.saturating_add(1);
        self.stats.total_sql_duration_us = self.stats.total_sql_duration_us.saturating_add(duration_us);
    }

    /// The response-time history, oldest first.
    pub fn get_response_time_history(&self) -> (r: Vec<u64>)
        ensures
            r@ == self.stats.response_time_history@,
    {
        self.stats.response_time_history.clone()
    }

    /// Forgets all counts.
    pub fn reset(&mut self)
        ensures
            final(self).stats.total_requests == 0 && final(self).stats.sql_queries == 0
                && final(self).stats.status_codes@.len() == 0 && final(self).stats.response_time_history@.len() == 0,
    {
        self.stats = PerformanceStats::default();
    }
}

} // verus!
