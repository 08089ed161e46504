//! Test-suite output: framework detection, run summaries, and debugger
//! sessions. Durations are in microseconds, times in the caller's clock.
use vstd::prelude::*;
use crate::text::{
    all_digits, char_is_digit, chars_of, contains, digits_value, find_in, has, index_of, is_digit, is_space,
    parse_bounded, parse_number, slice_vec, string_of, trim, trimmed,
};

verus! {

#[derive(Debug, Clone, Copy, PartialEq, Eq, Structural)]
pub enum TestFramework {
    RSpec,
    Minitest,
    TestUnit,
    Unknown,
}

#[derive(Debug, Clone, Copy, PartialEq, Eq, Structural)]
pub enum TestStatus {
    Passed,
    Failed,
    Pending,
    Skipped,
}

#[derive(Debug, Clone)]
pub struct TestResult {
    pub test_name: String,
    pub file_path: Option<String>,
    pub line_number: Option<usize>,
    pub status: TestStatus,
    pub duration_us: Option<u64>,
    pub failure_message: Option<String>,
    pub backtrace: Option<Vec<String>>,
    pub timestamp: u64,
}

/// One run of a test suite.
#[derive(Debug, Clone)]
pub struct TestRun {
    pub framework: TestFramework,
    pub started_at: u64,
    pub completed_at: Option<u64>,
    pub total_tests: usize,
    pub passed: usize,
    pub failed: usize,
    pub pending: usize,
    pub skipped: usize,
    pub duration_us: Option<u64>,
    pub test_results: Vec<TestResult>,
}

pub open spec fn bump(n: usize) -> usize {
    if n < usize::MAX {
        (n + 1) as usize
    } else {
        n
    }
}

fn copy_opt(o: &Option<String>) -> (r: Option<String>)
    ensures
        r == *o,
{
    match o {
        Some(s) => Some(s.clone()),
        None => None,
    }
}

impl TestResult {
    /// A field-by-field copy.
    pub fn duplicate(&self) -> (r: TestResult)
        ensures
            r.test_name == self.test_name && r.file_path == self.file_path && r.line_number == self.line_number
                && r.status == self.status && r.duration_us == self.duration_us && r.timestamp == self.timestamp,
    {
        TestResult {
            test_name: self.test_name.clone(),
            file_path: copy_opt(&self.file_path),
            line_number: self.line_number,
            status: self.status,
            duration_us: self.duration_us,
            failure_message: copy_opt(&self.failure_message),
            backtrace: match &self.backtrace {
                Some(b) => Some(b.clone()),
                None => None,
            },
            timestamp: self.timestamp,
        }
    }
}

impl TestRun {
    pub fn new(framework: TestFramework, now: u64) -> (r: TestRun)
        ensures
            r.framework == framework && r.started_at == now && r.completed_at is None && r.total_tests == 0
                && r.passed == 0 && r.failed == 0 && r.pending == 0 && r.skipped == 0 && r.test_results@.len() == 0,
    {
        TestRun {
            framework,
            started_at: now,
            completed_at: None,
            total_tests: 0,
            passed: 0,
            failed: 0,
            pending: 0,
            skipped: 0,
            duration_us: None,
            test_results: Vec::new(),
        }
    }

    /// Counts a result under its status and keeps it.
    pub fn add_result(&mut self, result: TestResult)
        ensures
            final(self).total_tests == bump(old(self).total_tests),
            final(self).passed == if result.status == TestStatus::Passed { bump(old(self).passed) } else { old(self).passed },
            final(self).failed == if result.status == TestStatus::Failed { bump(old(self).failed) } else { old(self).failed },
            final(self).pending == if result.status == TestStatus::Pending { bump(old(self).pending) } else { old(self).pending },
            final(self).skipped == if result.status == TestStatus::Skipped { bump(old(self).skipped) } else { old(self).skipped },
            final(self).test_results@ == old(self).test_results@.push(result),
            final(self).framework == old(self).framework,
    {
        self.total_tests = self.total_tests.saturating_add(1);
        match result.status {
            TestStatus::Passed => self.passed = self.passed.saturating_add(1),
            TestStatus::Failed => self.failed = self.failed.saturating_add(1),
            TestStatus::Pending => self.pending = self.pending.saturating_add(1),
            TestStatus::Skipped => self.skipped = self.skipped.saturating_add(1),
        }
        self.test_results.push(result);
    }

    pub fn complete(&mut self, duration_us: Option<u64>, now: u64)
        ensures
            final(self).completed_at == Some(now),
            final(self).duration_us == duration_us,
            final(self).total_tests == old(self).total_tests && final(self).passed == old(self).passed
                && final(self).failed == old(self).failed && final(self).pending == old(self).pending
                && final(self).test_results@ == old(self).test_results@,
    {
        self.completed_at = Some(now);
        self.duration_us = duration_us;
    }

    /// The share of passed tests in whole percent, rounded down; 0 without tests.
    pub fn success_rate_percent(&self) -> (r: u64)
        ensures
            r as nat == if self.total_tests == 0 { 0 } else { if (self.passed as nat * 100) / (self.total_tests as nat) <= u64::MAX {
                (self.passed as nat * 100) / (self.total_tests as nat)
            } else {
                u64::MAX as nat
            } },
    {
        if self.total_tests == 0 {
            return 0;
        }
        let q = (self.passed as u128) * 100 / (self.total_tests as u128);
        if q > u64::MAX as u128 {
            u64::MAX
        } else {
            q as u64
        }
    }

    /// The failed results, in order.
    pub fn failed_tests(&self) -> (r: Vec<&TestResult>)
        ensures
            forall|k: int| 0 <= k < r@.len() ==> (#[trigger] r@[k]).status == TestStatus::Failed,
            r@.len() == failed_count(self.test_results@),
    {
        let mut r: Vec<&TestResult> = Vec::new();
        let mut i: usize = 0;
        while i < self.test_results.len()
            invariant
                i <= self.test_results@.len(),
                forall|k: int| 0 <= k < r@.len() ==> (#[trigger] r@[k]).status == TestStatus::Failed,
                r@.len() == failed_count(self.test_results@.take(i as int)),
            decreases self.test_results.len() - i,
        {
            assert(self.test_results@.take(i + 1).drop_last() == self.test_results@.take(i as int));
            if self.test_results[i].status == TestStatus::Failed {
                r.push(&self.test_results[i]);
            }
            i += 1;
        }
        assert(self.test_results@.take(self.test_results@.len() as int) == self.test_results@);
        r
    }
}

/// How many results of `rs` failed.
pub open spec fn failed_count(rs: Seq<TestResult>) -> nat
    decreases rs.len(),
{
    if rs.len() == 0 {
        0
    } else {
        failed_count(rs.drop_last()) + if rs.last().status == TestStatus::Failed { 1nat } else { 0nat }
    }
}

} // verus!

verus! {

/// The first six digits of a fraction, padded with zeros, as a number.
pub open spec fn millionths(f: Seq<char>) -> nat {
    digits_value((f + seq!['0', '0', '0', '0', '0', '0']).take(6))
}

/// A number of seconds, `n` or `n.f`, in microseconds.
pub open spec fn seconds_us(t: Seq<char>) -> Option<nat> {
    match index_of(t, seq!['.'], 0) {
        None => match crate::text::parse_nat(t) {
            Some(v) => Some(v * 1_000_000),
            None => None,
        },
        Some(p) => {
            let frac = t.skip(p + 1);
            match crate::text::parse_nat(t.take(p)) {
                Some(v) => if frac.len() > 0 && all_digits(frac) {
                    Some(v * 1_000_000 + millionths(frac))
                } else {
                    None
                },
                None => None,
            }
        },
    }
}

/// The duration after `Finished in ` up to `marker`, trimmed, read as seconds.
pub open spec fn finished_duration(line: Seq<char>, marker: Seq<char>) -> Option<nat> {
    match index_of(line, "Finished in"@, 0) {
        Some(pos) => if pos + 12 <= line.len() {
            let after = line.skip(pos + 12);
            match index_of(after, marker, 0) {
                Some(e) => match seconds_us(trim(after.take(e))) {
                    Some(v) => if v <= u64::MAX { Some(v) } else { None },
                    None => None,
                },
                None => None,
            }
        } else {
            None
        },
        None => None,
    }
}

pub(crate) fn frac_us(s: &[char], lo: usize, hi: usize) -> (r: u64)
    requires
        lo <= hi <= s@.len(),
        forall|k: int| lo <= k < hi ==> is_digit(#[trigger] s@[k]),
    ensures
        r as nat == millionths(s@.subrange(lo as int, hi as int)),
        r < 1_000_000,
{
    let ghost f = s@.subrange(lo as int, hi as int);
    let ghost padded = (f + seq!['0', '0', '0', '0', '0', '0']).take(6);
    let mut v: u64 = 0;
    let mut k: usize = 0;
    while k < 6
        invariant
            k <= 6,
            lo <= hi <= s@.len(),
            f == s@.subrange(lo as int, hi as int),
            forall|j: int| lo <= j < hi ==> is_digit(#[trigger] s@[j]),
            padded == (f + seq!['0', '0', '0', '0', '0', '0']).take(6),
            v as nat == digits_value(padded.take(k as int)),
            v < (if k == 0 { 1u64 } else if k == 1 { 10u64 } else if k == 2 { 100u64 } else if k == 3 {
                1000u64
            } else if k == 4 { 10000u64 } else if k == 5 { 100000u64 } else { 1000000u64 }),
        decreases 6 - k,
    {
        let mut d: u64 = 0;
        if k < hi - lo {
            assert(is_digit(s@[lo + k]));
            d = (s[lo + k] as u32 - 48) as u64;
            assert(padded[k as int] == s@[lo + k]);
        } else {
            assert(padded[k as int] == '0');
        }
        assert(padded.take(k + 1).drop_last() == padded.take(k as int));
        assert(padded.take(k + 1).last() == padded[k as int]);
        assert(d <= 9);
        v = v * 10 + d;
        k += 1;
    }
    assert(padded.take(6) == padded);
    v
}

fn seconds_us_exec(s: &[char], lo: usize, hi: usize) -> (r: Option<u64>)
    requires
        lo <= hi <= s@.len(),
    ensures
        match r {
            Some(v) => seconds_us(s@.subrange(lo as int, hi as int)) == Some(v as nat),
            None => seconds_us(s@.subrange(lo as int, hi as int)) is None || seconds_us(
                s@.subrange(lo as int, hi as int),
            )->0 > u64::MAX,
        },
{
    let ghost t = s@.subrange(lo as int, hi as int);
    let dot = ['.'];
    assert(dot@ == seq!['.']);
    let p = find_in(s, &dot, lo);
    let in_range = match p {
        Some(q) => q < hi,
        None => false,
    };
    proof {
        crate::text::lemma_index_shift(s@, dot@, lo as int, lo as int);
        assert(s@.subrange(lo as int, s@.len() as int).subrange(0, hi - lo) == t);
    }
    if !in_range {
        assert(index_of(t, seq!['.'], 0) is None) by {
            crate::text::lemma_index_prefix(s@.subrange(lo as int, s@.len() as int), seq!['.'], (hi - lo) as int, 0);
        }
        match parse_number(s, lo, hi, u64::MAX / 1_000_000) {
            Some(v) => Some(v * 1_000_000),
            None => {
                proof {
                    match crate::text::parse_nat(t) {
                        Some(v) => {
                            assert(v * 1_000_000 > u64::MAX) by (nonlinear_arith)
                                requires
                                    v > u64::MAX / 1_000_000,
                            {
                            }
                        },
                        None => {},
                    }
                }
                None
            },
        }
    } else {
        let q = match p {
            Some(q) => q,
            None => lo,
        };
        assert(index_of(t, seq!['.'], 0) == Some(q - lo)) by {
            crate::text::lemma_index_prefix(s@.subrange(lo as int, s@.len() as int), seq!['.'], (hi - lo) as int, 0);
        }
        assert(t.take(q - lo) == s@.subrange(lo as int, q as int));
        assert(t.skip(q - lo + 1) == s@.subrange(q + 1, hi as int));
        let mut all = q + 1 < hi;
        let mut k: usize = q + 1;
        while k < hi
            invariant
                q + 1 <= k <= hi <= s@.len(),
                all ==> q + 1 < hi && forall|j: int| q + 1 <= j < k ==> is_digit(#[trigger] s@[j]),
                !all ==> !(q + 1 < hi && forall|j: int| q + 1 <= j < hi ==> is_digit(#[trigger] s@[j])),
            decreases hi - k,
        {
            if !char_is_digit(s[k]) {
                all = false;
            }
            k += 1;
        }
        assert(all == (s@.subrange(q + 1, hi as int).len() > 0 && all_digits(s@.subrange(q + 1, hi as int)))) by {
            if all_digits(s@.subrange(q + 1, hi as int)) {
                assert forall|j: int| q + 1 <= j < hi implies is_digit(#[trigger] s@[j]) by {
                    assert(s@.subrange(q + 1, hi as int)[j - q - 1] == s@[j]);
                }
            }
            if all {
                assert forall|j: int| 0 <= j < s@.subrange(q + 1, hi as int).len() implies is_digit(#[trigger] s@.subrange(q + 1, hi as int)[j]) by {
                    assert(s@.subrange(q + 1, hi as int)[j] == s@[q + 1 + j]);
                }
            }
        }
        if !all {
            return None;
        }
        let f = frac_us(s, q + 1, hi);
        match parse_number(s, lo, q, u64::MAX / 1_000_000) {
            Some(v) => {
                assert(v * 1_000_000 <= u64::MAX) by (nonlinear_arith)
                    requires
                        v <= u64::MAX / 1_000_000,
                {
                }
                if f > u64::MAX - v * 1_000_000 {
                    None
                } else {
                    Some(v * 1_000_000 + f)
                }
            },
            None => {
                proof {
                    match crate::text::parse_nat(t.take(q - lo)) {
                        Some(v) => {
                            assert(v * 1_000_000 + f > u64::MAX) by (nonlinear_arith)
                                requires
                                    v > u64::MAX / 1_000_000,
                                    f >= 0,
                            {
                            }
                        },
                        None => {},
                    }
                }
                None
            },
        }
    }
}

} // verus!

verus! {

fn finished_duration_exec(line: &[char], marker: &[char]) -> (r: Option<u64>)
    ensures
        match r {
            Some(v) => finished_duration(line@, marker@) == Some(v as nat),
            None => finished_duration(line@, marker@) is None,
        },
{
    let key = chars_of("Finished in");
    let pos = match find_in(line, &key, 0) {
        Some(p) => p,
        None => return None,
    };
    let n = line.len();
    if pos > n || n - pos < 12 {
        return None;
    }
    let after = slice_vec(line, pos + 12, n);
    assert(after@ == line@.skip(pos + 12));
    let e = match find_in(&after, marker, 0) {
        Some(e) => e,
        None => return None,
    };
    let head = slice_vec(&after, 0, e);
    assert(head@ == after@.take(e as int));
    let t = trimmed(&head);
    let len = t.len();
    let r = seconds_us_exec(&t, 0, len);
    assert(t@.subrange(0, len as int) == t@);
    r
}

#[derive(Debug, Clone, Copy, PartialEq, Eq, Structural)]
pub enum DebuggerType {
    Pry,
    Byebug,
    Debug,
    Unknown,
}

/// An open debugger session.
#[derive(Debug, Clone)]
pub struct DebuggerInfo {
    pub debugger_type: DebuggerType,
    pub file_path: Option<String>,
    pub line_number: Option<usize>,
    pub variables: Vec<(String, String)>,
    pub timestamp: u64,
}

/// The debugger a line shows, if any.
pub open spec fn debugger_of(line: Seq<char>) -> Option<DebuggerType> {
    if contains(line, "pry("@) || contains(line, "Frame number:"@) {
        Some(DebuggerType::Pry)
    } else if contains(line, "byebug"@) || contains(line, "[byebug]"@) {
        Some(DebuggerType::Byebug)
    } else if contains(line, "DEBUGGER:"@) || contains(line, "debug.rb"@) {
        Some(DebuggerType::Debug)
    } else {
        None
    }
}

/// The path after `From:`, up to the next `:`.
pub open spec fn from_path(line: Seq<char>) -> Option<Seq<char>> {
    match index_of(line, "From:"@, 0) {
        Some(pos) => if pos + 5 <= line.len() {
            let after = trim(line.skip(pos + 5));
            match index_of(after, seq![':'], 0) {
                Some(c) => Some(after.take(c)),
                None => None,
            }
        } else {
            None
        },
        None => None,
    }
}

/// The last `:` of `s` before or at `i - 1`.
pub open spec fn last_colon_before(s: Seq<char>, i: int) -> Option<int>
    decreases i,
{
    if i <= 0 || i > s.len() {
        None
    } else if s[i - 1] == ':' {
        Some(i - 1)
    } else {
        last_colon_before(s, i - 1)
    }
}

/// The number in the first word after the last `:`.
pub open spec fn line_number_of(line: Seq<char>) -> Option<nat> {
    match last_colon_before(line, line.len() as int) {
        Some(pos) => match crate::database::first_token(line.skip(pos + 1)) {
            Some(w) => parse_bounded(w, usize::MAX as nat),
            None => None,
        },
        None => None,
    }
}

fn from_path_exec(line: &[char]) -> (r: Option<Vec<char>>)
    ensures
        match r {
            Some(p) => from_path(line@) == Some(p@),
            None => from_path(line@) is None,
        },
{
    let key = chars_of("From:");
    let pos = match find_in(line, &key, 0) {
        Some(p) => p,
        None => return None,
    };
    let n = line.len();
    if pos > n || n - pos < 5 {
        return None;
    }
    let rest = slice_vec(line, pos + 5, n);
    assert(rest@ == line@.skip(pos + 5));
    let after = trimmed(&rest);
    let colon = [':'];
    assert(colon@ == seq![':']);
    match find_in(&after, &colon, 0) {
        Some(c) => {
            let p = slice_vec(&after, 0, c);
            assert(p@ == after@.take(c as int));
            Some(p)
        },
        None => None,
    }
}

fn line_number_exec(line: &[char]) -> (r: Option<usize>)
    ensures
        match r {
            Some(v) => line_number_of(line@) == Some(v as nat),
            None => line_number_of(line@) is None,
        },
{
    let mut i: usize = line.len();
    while i > 0 && line[i - 1] != ':'
        invariant
            i <= line@.len(),
            last_colon_before(line@, line@.len() as int) == last_colon_before(line@, i as int),
        decreases i,
    {
        i -= 1;
    }
    if i == 0 {
        return None;
    }
    let n = line.len();
    let rest = slice_vec(line, i, n);
    assert(rest@ == line@.skip(i as int));
    match crate::command::first_word(&rest) {
        Some(w) => {
            let len = w.len();
            match parse_number(&w, 0, len, usize::MAX as u64) {
                Some(v) => {
                    assert(w@.subrange(0, len as int) == w@);
                    Some(v as usize)
                },
                None => {
                    assert(w@.subrange(0, len as int) == w@);
                    None
                },
            }
        },
        None => None,
    }
}

fn debugger_of_exec(line: &[char]) -> (r: Option<DebuggerType>)
    ensures
        r == debugger_of(line@),
{
    if has_text(line, "pry(") || has_text(line, "Frame number:") {
        Some(DebuggerType::Pry)
    } else if has_text(line, "byebug") || has_text(line, "[byebug]") {
        Some(DebuggerType::Byebug)
    } else if has_text(line, "DEBUGGER:") || has_text(line, "debug.rb") {
        Some(DebuggerType::Debug)
    } else {
        None
    }
}

fn has_text(s: &[char], p: &str) -> (r: bool)
    ensures
        r == contains(s@, p@),
{
    let pc = chars_of(p);
    has(s, &pc)
}

/// The framework whose name a line mentions.
pub open spec fn framework_of(line: Seq<char>) -> Option<TestFramework> {
    if contains(line, "RSpec"@) || contains(line, "rspec"@) {
        Some(TestFramework::RSpec)
    } else if contains(line, "Minitest"@) || contains(line, "minitest"@) {
        Some(TestFramework::Minitest)
    } else if contains(line, "Test::Unit"@) {
        Some(TestFramework::TestUnit)
    } else {
        None
    }
}

/// Counters over finished runs.
#[derive(Debug, Clone)]
pub struct TestStats {
    pub total_runs: usize,
    pub total_tests_run: usize,
    pub total_passed: usize,
    pub total_failed: usize,
    pub total_pending: usize,
    pub average_duration_us: Option<u64>,
    /// Results slower than 100 ms, slowest first, at most twenty.
    pub slowest_tests: Vec<TestResult>,
}

pub const MAX_RECENT_RUNS: usize = 10;

pub const MAX_SLOWEST_TESTS: usize = 20;

/// Follows test-suite output: the run in progress, finished runs and debugger sessions.
pub struct TestTracker {
    pub framework: Option<TestFramework>,
    pub current_run: Option<TestRun>,
    pub recent_runs: Vec<TestRun>,
    pub stats: TestStats,
    pub debugger_active: bool,
    pub debugger_info: Option<DebuggerInfo>,
}

pub open spec fn add_sat(a: usize, b: usize) -> usize {
    if a + b <= usize::MAX {
        (a + b) as usize
    } else {
        usize::MAX
    }
}

impl TestTracker {
    pub open spec fn wf(&self) -> bool {
        &&& self.recent_runs@.len() <= MAX_RECENT_RUNS
        &&& self.stats.slowest_tests@.len() <= MAX_SLOWEST_TESTS
    }

    pub fn new() -> (r: TestTracker)
        ensures
            r.wf(),
            r.framework is None && r.current_run is None && r.recent_runs@.len() == 0 && !r.debugger_active,
            r.stats.total_runs == 0 && r.stats.total_tests_run == 0,
    {
        TestTracker {
            framework: None,
            current_run: None,
            recent_runs: Vec::new(),
            stats: TestStats {
                total_runs: 0,
                total_tests_run: 0,
                total_passed: 0,
                total_failed: 0,
                total_pending: 0,
                average_duration_us: None,
                slowest_tests: Vec::new(),
            },
            debugger_active: false,
            debugger_info: None,
        }
    }

    pub fn detect_framework(&self, line: &str) -> (r: Option<TestFramework>)
        ensures
            r == framework_of(line@),
    {
        let l = chars_of(line);
        if has_text(&l, "RSpec") || has_text(&l, "rspec") {
            Some(TestFramework::RSpec)
        } else if has_text(&l, "Minitest") || has_text(&l, "minitest") {
            Some(TestFramework::Minitest)
        } else if has_text(&l, "Test::Unit") {
            Some(TestFramework::TestUnit)
        } else {
            None
        }
    }

    /// Starts a new run of `framework`, dropping any run in progress.
    pub fn start_test_run(&mut self, framework: TestFramework, now: u64)
        requires
            old(self).wf(),
        ensures
            final(self).wf(),
            final(self).framework == Some(framework),
            final(self).current_run matches Some(r) && r.framework == framework && r.total_tests == 0
                && r.started_at == now,
            final(self).stats.total_runs == old(self).stats.total_runs,
    {
        self.current_run = Some(TestRun::new(framework, now));
        self.framework = Some(framework);
    }

    /// Adds a result to the run in progress, if any.
    pub fn add_test_result(&mut self, result: TestResult)
        requires
            old(self).wf(),
        ensures
            final(self).wf(),
            final(self).framework == old(self).framework,
            final(self).stats.total_runs == old(self).stats.total_runs,
            match old(self).current_run {
                Some(r) => final(self).current_run matches Some(q) && q.total_tests == bump(r.total_tests),
                None => final(self).current_run is None,
            },
    {
        match self.current_run.take() {
            Some(mut run) => {
                run.add_result(result);
                self.current_run = Some(run);
            },
            None => {},
        }
    }

    /// Finishes the run in progress: its counts join the totals, its slow
    /// results the slowest list, and it joins the recent runs.
    pub fn complete_test_run(&mut self, duration_us: Option<u64>, now: u64)
        requires
            old(self).wf(),
        ensures
            final(self).wf(),
            final(self).framework == old(self).framework,
            final(self).current_run is None,
            match old(self).current_run {
                Some(r) => {
                    &&& final(self).stats.total_runs == bump(old(self).stats.total_runs)
                    &&& final(self).stats.total_tests_run == add_sat(old(self).stats.total_tests_run, r.total_tests)
                    &&& final(self).stats.total_passed == add_sat(old(self).stats.total_passed, r.passed)
                    &&& final(self).stats.total_failed == add_sat(old(self).stats.total_failed, r.failed)
                    &&& final(self).stats.total_pending == add_sat(old(self).stats.total_pending, r.pending)
                    &&& final(self).recent_runs@.len() > 0
                    &&& final(self).recent_runs@.last().total_tests == r.total_tests
                    &&& final(self).recent_runs@.last().duration_us == duration_us
                },
                None => final(self).stats.total_runs == old(self).stats.total_runs,
            },
    {
        let mut run = match self.current_run.take() {
            Some(r) => r,
            None => return,
        };
        run.complete(duration_us, now);
        let st = &mut self.stats;
        st.total_runs = st.total_runs.saturating_add(1);
        st.total_tests_run = st.total_tests_run.saturating_add(run.total_tests);
        st.total_passed = st.total_passed.saturating_add(run.passed);
        st.total_failed = st.total_failed.saturating_add(run.failed);
        st.total_pending = st.total_pending.saturating_add(run.pending);
        match duration_us {
            Some(d) => {
                st.average_duration_us = Some(
                    match st.average_duration_us {
                        Some(avg) => ((avg as u128 + d as u128) / 2) as u64,
                        None => d,
                    },
                );
            },
            None => {},
        }
        let mut slow: Vec<TestResult> = Vec::new();
        let mut i: usize = 0;
        while i < st.slowest_tests.len()
            invariant
                i <= st.slowest_tests@.len(),
            decreases st.slowest_tests.len() - i,
        {
            slow.push(st.slowest_tests[i].duplicate());
            i += 1;
        }
        let mut j: usize = 0;
        while j < run.test_results.len()
            invariant
                j <= run.test_results@.len(),
            decreases run.test_results.len() - j,
        {
            match run.test_results[j].duration_us {
                Some(d) => {
                    if d > 100_000 {
                        slow.push(run.test_results[j].duplicate());
                    }
                },
                None => {},
            }
            j += 1;
        }
        let mut keys: Vec<u64> = Vec::new();
        let mut k: usize = 0;
        while k < slow.len()
            invariant
                k <= slow@.len(),
                keys@.len() == k,
            decreases slow.len() - k,
        {
            keys.push(
                match slow[k].duration_us {
                    Some(d) => d,
                    None => 0,
                },
            );
            k += 1;
        }
        let perm = crate::rank::rank_desc(&keys);
        let mut ranked: Vec<TestResult> = Vec::new();
        let mut m: usize = 0;
        while m < perm.len() && m < MAX_SLOWEST_TESTS
            invariant
                m <= perm@.len(),
                m <= MAX_SLOWEST_TESTS,
                ranked@.len() == m,
                crate::rank::is_permutation(perm@, slow@.len()),
            decreases perm.len() - m,
        {
            ranked.push(slow[perm[m]].duplicate());
            m += 1;
        }
        st.slowest_tests = ranked;
        self.recent_runs.push(run);
        if self.recent_runs.len() > MAX_RECENT_RUNS {
            self.recent_runs.remove(0);
        }
    }

    /// Notes a debugger session that the line shows.
    fn detect_debugger(&mut self, line: &[char], now: u64)
        ensures
            final(self).current_run == old(self).current_run,
            final(self).framework == old(self).framework,
            final(self).recent_runs == old(self).recent_runs,
            final(self).stats == old(self).stats,
            match debugger_of(line@) {
                Some(t) => final(self).debugger_active && (final(self).debugger_info matches Some(i)
                    && i.debugger_type == t && match from_path(line@) {
                    Some(p) => i.file_path matches Some(f) && f@ == p,
                    None => i.file_path is None,
                } && match line_number_of(line@) {
                    Some(n) => i.line_number == Some(n as usize),
                    None => i.line_number is None,
                }),
                None => final(self).debugger_active == old(self).debugger_active && final(self).debugger_info
                    == old(self).debugger_info,
            },
    {
        match debugger_of_exec(line) {
            Some(t) => {
                self.debugger_active = true;
                self.debugger_info = Some(
                    DebuggerInfo {
                        debugger_type: t,
                        file_path: match from_path_exec(line) {
                            Some(p) => Some(string_of(&p)),
                            None => None,
                        },
                        line_number: line_number_exec(line),
                        variables: Vec::new(),
                        timestamp: now,
                    },
                );
            },
            None => {},
        }
    }

    fn parse_minitest_results(&mut self, line: &[char], now: u64)
        requires
            old(self).wf(),
        ensures
            final(self).wf(),
            final(self).framework == old(self).framework,
    {
        let mut start: usize = 0;
        let n = line.len();
        while start <= n
            invariant
                self.wf(),
                self.framework == old(self).framework,
                start <= n + 1,
                n == line@.len(),
            decreases n + 1 - start,
        {
            let comma = [','];
            let end = match find_in(line, &comma, start) {
                Some(e) => e,
                None => n,
            };
            if end < start {
                return;
            }
            let part = trimmed(&slice_vec(line, start, end));
            if has_text(&part, "failure") {
                match crate::command::first_word(&part) {
                    Some(w) => {
                        let len = w.len();
                        match parse_number(&w, 0, len, usize::MAX as u64) {
                            Some(count) => {
                                let mut c: u64 = 0;
                                while c < count
                                    invariant
                                        self.wf(),
                                        self.framework == old(self).framework,
                                    decreases count - c,
                                {
                                    self.add_test_result(TestResult {
                                        test_name: "Unknown test".to_owned(),
                                        file_path: None,
                                        line_number: None,
                                        status: TestStatus::Failed,
                                        duration_us: None,
                                        failure_message: None,
                                        backtrace: None,
                                        timestamp: now,
                                    });
                                    c += 1;
                                }
                            },
                            None => {},
                        }
                    },
                    None => {},
                }
            }
            if end >= n {
                return;
            }
            start = end + 1;
        }
    }

    /// Feeds one output line, seen at `now`: the first line that names a
    /// framework starts a run; summary lines finish it; debugger banners
    /// are noted.
    pub fn parse_line(&mut self, line: &str, now: u64)
        requires
            old(self).wf(),
        ensures
            final(self).wf(),
            old(self).framework is None && framework_of(line@) is Some ==> final(self).framework == framework_of(line@),
    {
        let l = chars_of(line);
        if self.framework.is_none() {
            match self.detect_framework(line) {
                Some(fw) => self.start_test_run(fw, now),
                None => {},
            }
        }
        self.detect_debugger(&l, now);
        match self.framework {
            Some(TestFramework::RSpec) => {
                if has_text(&l, "example") && (has_text(&l, "failure") || has_text(&l, "passed")) {
                    let marker = chars_of("second");
                    match finished_duration_exec(&l, &marker) {
                        Some(d) => self.complete_test_run(Some(d), now),
                        None => {},
                    }
                }
            },
            Some(TestFramework::Minitest) => {
                if has_text(&l, "Finished in") {
                    let marker = chars_of("s");
                    match finished_duration_exec(&l, &marker) {
                        Some(d) => self.complete_test_run(Some(d), now),
                        None => {},
                    }
                }
                if has_text(&l, "runs,") && has_text(&l, "assertions,") {
                    self.parse_minitest_results(&l, now);
                }
            },
            _ => {},
        }
    }

    pub fn get_current_run(&self) -> (r: &Option<TestRun>)
        ensures
            *r == self.current_run,
    {
        &self.current_run
    }

    pub fn get_recent_runs(&self) -> (r: &Vec<TestRun>)
        ensures
            r@ == self.recent_runs@,
    {
        &self.recent_runs
    }

    pub fn get_stats(&self) -> (r: &TestStats)
        ensures
            *r == self.stats,
    {
        &self.stats
    }

    pub fn is_debugger_active(&self) -> (r: bool)
        ensures
            r == self.debugger_active,
    {
        self.debugger_active
    }

    pub fn get_debugger_info(&self) -> (r: &Option<DebuggerInfo>)
        ensures
            *r == self.debugger_info,
    {
        &self.debugger_info
    }

    pub fn clear_debugger(&mut self)
        ensures
            !final(self).debugger_active,
            final(self).debugger_info is None,
            final(self).stats == old(self).stats,
            final(self).recent_runs == old(self).recent_runs,
            final(self).current_run == old(self).current_run,
            final(self).framework == old(self).framework,
    {
        self.debugger_active = false;
        self.debugger_info = None;
    }
}

} // verus!
