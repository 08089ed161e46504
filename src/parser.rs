//! The line classifier: one output line in, at most one typed signal out.
use vstd::prelude::*;
use crate::text::{
    chars_of, char_is_digit, char_is_space, char_is_word, contains, digits_value, find_in, has, index_of,
    is_digit, is_space, is_upper, is_word, lower_seq, matches_at, occurs_at, parse_bounded, parse_number,
    push_all, push_str, slice_vec, starts_with, string_of, to_lower, trim, trimmed,
};

verus! {

/// A request start (no status) or completion (with status and duration).
/// Durations are in microseconds.
#[derive(Debug, Clone)]
pub struct HttpRequest {
    pub method: String,
    pub path: String,
    pub status: Option<u16>,
    pub duration_us: Option<u64>,
    pub controller: Option<String>,
    pub action: Option<String>,
}

/// A query line. Durations are in microseconds.
#[derive(Debug, Clone)]
pub struct SqlQuery {
    pub query: String,
    pub duration_us: Option<u64>,
    pub rows: Option<usize>,
    pub name: Option<String>,
}

#[derive(Debug, Clone)]
pub enum RailsError {
    PendingMigrations,
    DatabaseNotFound(String),
    DatabaseConnectionFailed(String),
    MissingGem(String),
    BundlerError(String),
    ConfigurationError(String),
    PortInUse(u16),
    GenericStartupError(String),
}

#[derive(Debug, Clone)]
pub enum LogEvent {
    HttpRequest(HttpRequest),
    SqlQuery(SqlQuery),
    Error(String),
    RailsStartupError(RailsError),
    Info(String),
}

// ---------------------------------------------------------------------------
// Runs of characters and numbers
// ---------------------------------------------------------------------------

/// The index after the run of digits from `i`.
pub open spec fn digit_end(s: Seq<char>, i: int) -> int
    decreases s.len() - i,
{
    if 0 <= i < s.len() && is_digit(s[i]) {
        digit_end(s, i + 1)
    } else {
        i
    }
}

/// The index after the run of characters from `i` that are word characters
/// (`word`) or not whitespace (`!word`).
pub open spec fn run_end(s: Seq<char>, i: int, word: bool) -> int
    decreases s.len() - i,
{
    if 0 <= i < s.len() && (if word { is_word(s[i]) } else { !is_space(s[i]) }) {
        run_end(s, i + 1, word)
    } else {
        i
    }
}

/// The index after the run of whitespace from `i`.
pub open spec fn space_end(s: Seq<char>, i: int) -> int
    decreases s.len() - i,
{
    if 0 <= i < s.len() && is_space(s[i]) {
        space_end(s, i + 1)
    } else {
        i
    }
}

/// The index after the run of upper-case letters from `i`.
pub open spec fn upper_end(s: Seq<char>, i: int) -> int
    decreases s.len() - i,
{
    if 0 <= i < s.len() && is_upper(s[i]) {
        upper_end(s, i + 1)
    } else {
        i
    }
}

/// The index after a number `digits[.digits]` that starts at `i` with a digit.
pub open spec fn number_end(s: Seq<char>, i: int) -> int {
    let a = digit_end(s, i);
    if a + 1 < s.len() && s[a] == '.' && is_digit(s[a + 1]) {
        digit_end(s, a + 1)
    } else {
        a
    }
}

/// `n` capped at the largest `u64`.
pub open spec fn sat(n: nat) -> u64 {
    if n <= u64::MAX {
        n as u64
    } else {
        u64::MAX
    }
}

/// The first three digits of a fraction, padded with zeros, as a number.
pub open spec fn thousandths(f: Seq<char>) -> nat {
    digits_value((f + seq!['0', '0', '0']).take(3))
}

/// The number of milliseconds written `s[i..number_end]`, in microseconds,
/// past the third decimal cut off, capped at the largest `u64`.
pub open spec fn millis_to_micros(s: Seq<char>, i: int) -> u64 {
    let a = digit_end(s, i);
    let e = number_end(s, i);
    let frac = if e > a { s.subrange(a + 1, e) } else { Seq::empty() };
    sat(digits_value(s.subrange(i, a)) * 1000 + thousandths(frac))
}

fn digit_end_exec(s: &[char], i: usize) -> (r: usize)
    requires
        i <= s.len(),
    ensures
        r as int == digit_end(s@, i as int),
        i <= r <= s.len(),
    decreases s.len() - i,
{
    if i < s.len() && char_is_digit(s[i]) {
        digit_end_exec(s, i + 1)
    } else {
        i
    }
}

pub(crate) fn run_end_exec(s: &[char], i: usize, word: bool) -> (r: usize)
    requires
        i <= s.len(),
    ensures
        r as int == run_end(s@, i as int, word),
        i <= r <= s.len(),
    decreases s.len() - i,
{
    if i < s.len() && (if word { char_is_word(s[i]) } else { !char_is_space(s[i]) }) {
        run_end_exec(s, i + 1, word)
    } else {
        i
    }
}

pub(crate) fn space_end_exec(s: &[char], i: usize) -> (r: usize)
    requires
        i <= s.len(),
    ensures
        r as int == space_end(s@, i as int),
        i <= r <= s.len(),
    decreases s.len() - i,
{
    if i < s.len() && char_is_space(s[i]) {
        space_end_exec(s, i + 1)
    } else {
        i
    }
}

fn upper_end_exec(s: &[char], i: usize) -> (r: usize)
    requires
        i <= s.len(),
    ensures
        r as int == upper_end(s@, i as int),
        i <= r <= s.len(),
    decreases s.len() - i,
{
    if i < s.len() && 'A' <= s[i] && s[i] <= 'Z' {
        upper_end_exec(s, i + 1)
    } else {
        i
    }
}

fn number_end_exec(s: &[char], i: usize) -> (r: usize)
    requires
        i <= s.len(),
    ensures
        r as int == number_end(s@, i as int),
        digit_end(s@, i as int) <= r <= s.len(),
{
    let a = digit_end_exec(s, i);
    if a < s.len() && a + 1 < s.len() && s[a] == '.' && char_is_digit(s[a + 1]) {
        digit_end_exec(s, a + 1)
    } else {
        a
    }
}

proof fn lemma_digit_end_all(s: Seq<char>, i: int)
    requires
        0 <= i <= s.len(),
    ensures
        i <= digit_end(s, i) <= s.len(),
        forall|k: int| i <= k < digit_end(s, i) ==> is_digit(#[trigger] s[k]),
    decreases s.len() - i,
{
    if i < s.len() && is_digit(s[i]) {
        lemma_digit_end_all(s, i + 1);
    }
}

/// `digits_value` of `s[lo..hi]`, capped at the largest `u64`.
fn digits_sat(s: &[char], lo: usize, hi: usize) -> (r: u64)
    requires
        lo <= hi <= s.len(),
        forall|k: int| lo <= k < hi ==> is_digit(#[trigger] s@[k]),
    ensures
        r == sat(digits_value(s@.subrange(lo as int, hi as int))),
{
    let mut acc: u64 = 0;
    let mut i: usize = lo;
    while i < hi
        invariant
            lo <= i <= hi <= s.len(),
            forall|k: int| lo <= k < hi ==> is_digit(#[trigger] s@[k]),
            acc == sat(digits_value(s@.subrange(lo as int, i as int))),
        decreases hi - i,
    {
        let d = (s[i] as u32 - 48) as u64;
        assert(is_digit(s@[i as int]));
        assert(s@.subrange(lo as int, i + 1).drop_last() == s@.subrange(lo as int, i as int));
        assert(s@.subrange(lo as int, i + 1).last() == s@[i as int]);
        let ghost v = digits_value(s@.subrange(lo as int, i as int));
        if acc > (u64::MAX - d) / 10 {
            assert(v * 10 + d > u64::MAX) by (nonlinear_arith)
                requires
                    acc > (u64::MAX - d) / 10,
                    acc == sat(v),
                    acc as int <= v,
                    d <= 9,
            {
            }
            acc = u64::MAX;
        } else {
            assert(acc == v) by {
                if v > u64::MAX {
                    assert(acc == u64::MAX);
                }
            }
            acc = acc * 10 + d;
        }
        i += 1;
    }
    acc
}

/// The milliseconds number at `s[i..]`, in microseconds, as `millis_to_micros`.
fn parse_millis(s: &[char], i: usize) -> (r: u64)
    requires
        i <= s.len(),
    ensures
        r == millis_to_micros(s@, i as int),
{
    let a = digit_end_exec(s, i);
    let e = number_end_exec(s, i);
    proof {
        lemma_digit_end_all(s@, i as int);
    }
    let whole = digits_sat(s, i, a);
    let mut frac: u64 = 0;
    let mut k: usize = 0;
    let ghost f = if e > a { s@.subrange(a + 1, e as int) } else { Seq::<char>::empty() };
    let ghost padded = (f + seq!['0', '0', '0']).take(3);
    proof {
        if e > a {
            lemma_digit_end_all(s@, a + 1);
        }
    }
    while k < 3
        invariant
            k <= 3,
            a <= e <= s.len(),
            f == (if e > a { s@.subrange(a + 1, e as int) } else { Seq::<char>::empty() }),
            forall|j: int| 0 <= j < f.len() ==> is_digit(#[trigger] f[j]),
            padded == (f + seq!['0', '0', '0']).take(3),
            frac as nat == digits_value(padded.take(k as int)),
            frac < 1000,
            frac <= (if k == 0 { 0u64 } else if k == 1 { 9u64 } else if k == 2 { 99u64 } else { 999u64 }),
        decreases 3 - k,
    {
        let mut d: u64 = 0;
        if e > a && k < e - a - 1 {
            assert(f[k as int] == s@[a + 1 + k]);
            assert(is_digit(f[k as int]));
            d = (s[a + 1 + k] as u32 - 48) as u64;
        }
        assert(padded.take(k + 1).drop_last() == padded.take(k as int));
        assert(padded.take(k + 1).last() == padded[k as int]);
        assert(d as nat == (padded[k as int] as u32 - 48) as nat) by {
            if e > a && k < e - a - 1 {
                assert(padded[k as int] == f[k as int]);
                assert(f[k as int] == s@[a + 1 + k]);
            } else {
                assert(padded[k as int] == '0');
            }
        }
        assert(is_digit(padded[k as int]) || padded[k as int] == '0') by {
            if k < f.len() {
                assert(padded[k as int] == f[k as int]);
            }
        }
        frac = frac * 10 + d;
        k += 1;
    }
    assert(padded.take(3) == padded);
    let base: u64 = if whole > (u64::MAX - frac) / 1000 { u64::MAX } else { whole * 1000 + frac };
    proof {
        let v = digits_value(s@.subrange(i as int, a as int));
        if whole > (u64::MAX - frac) / 1000 {
            assert(v * 1000 + frac > u64::MAX) by (nonlinear_arith)
                requires
                    whole > (u64::MAX - frac) / 1000,
                    whole as int <= v,
                    frac < 1000,
            {
            }
        } else {
            assert(whole == v) by {
                if v > u64::MAX {
                    assert(whole == u64::MAX);
                }
            }
        }
    }
    base
}

} // verus!

verus! {

// ---------------------------------------------------------------------------
// Timestamp prefixes
// ---------------------------------------------------------------------------

pub open spec fn char_at(s: Seq<char>, i: int, c: char) -> bool {
    0 <= i < s.len() && s[i] == c
}

pub open spec fn digit_at(s: Seq<char>, i: int) -> bool {
    0 <= i < s.len() && is_digit(s[i])
}

/// The index after a log level word at `i`.
pub open spec fn level_end(s: Seq<char>, i: int) -> Option<int> {
    if occurs_at(s, seq!['D', 'E', 'B', 'U', 'G'], i) {
        Some(i + 5)
    } else if occurs_at(s, seq!['I', 'N', 'F', 'O'], i) {
        Some(i + 4)
    } else if occurs_at(s, seq!['W', 'A', 'R', 'N'], i) {
        Some(i + 4)
    } else if occurs_at(s, seq!['E', 'R', 'R', 'O', 'R'], i) {
        Some(i + 5)
    } else if occurs_at(s, seq!['F', 'A', 'T', 'A', 'L'], i) {
        Some(i + 5)
    } else {
        None
    }
}

/// The tagged prefix `X, [...] LEVEL -- : ` with `X` one of `DIWEF`.
pub open spec fn tagged_prefix(s: Seq<char>) -> Option<int> {
    if s.len() >= 2 && (s[0] == 'D' || s[0] == 'I' || s[0] == 'W' || s[0] == 'E' || s[0] == 'F') && s[1] == ',' {
        match index_of(s, seq![']'], 2) {
            Some(c) => {
                let b = space_end(s, c + 1);
                if c > 2 && b > c + 1 {
                    match level_end(s, b) {
                        Some(l) => {
                            let l2 = space_end(s, l);
                            if l2 > l && occurs_at(s, seq!['-', '-'], l2) {
                                let l3 = space_end(s, l2 + 2);
                                if char_at(s, l3, ':') {
                                    Some(space_end(s, l3 + 1))
                                } else {
                                    None
                                }
                            } else {
                                None
                            }
                        },
                        None => None,
                    }
                } else {
                    None
                }
            },
            None => None,
        }
    } else {
        None
    }
}

/// The bracketed prefix `[...] : `.
pub open spec fn bracket_prefix(s: Seq<char>) -> Option<int> {
    match index_of(s, seq![']'], 0) {
        Some(c) => {
            let a = space_end(s, c + 1);
            if c >= 1 && char_at(s, a, ':') {
                Some(space_end(s, a + 1))
            } else {
                None
            }
        },
        None => None,
    }
}

/// The timestamp prefix `YYYY-MM-DD[T ]hh:mm:ss...` followed by whitespace.
pub open spec fn date_prefix(s: Seq<char>) -> Option<int> {
    if digit_at(s, 0) && digit_at(s, 1) && digit_at(s, 2) && digit_at(s, 3) && char_at(s, 4, '-')
        && digit_at(s, 5) && digit_at(s, 6) && char_at(s, 7, '-') && digit_at(s, 8) && digit_at(s, 9)
        && 10 < s.len() && (s[10] == 'T' || is_space(s[10])) && digit_at(s, 11) && digit_at(s, 12)
        && char_at(s, 13, ':') && digit_at(s, 14) && digit_at(s, 15) && char_at(s, 16, ':')
        && digit_at(s, 17) && digit_at(s, 18) {
        let e = run_end(s, 19, false);
        let f = space_end(s, e);
        if f > e {
            Some(f)
        } else {
            None
        }
    } else {
        None
    }
}

/// Where a line's text starts once a timestamp prefix, if any, is skipped.
pub open spec fn prefix_end(s: Seq<char>) -> int {
    match tagged_prefix(s) {
        Some(e) => e,
        None => match bracket_prefix(s) {
            Some(e) => e,
            None => match date_prefix(s) {
                Some(e) => e,
                None => 0,
            },
        },
    }
}

fn at(s: &[char], i: usize, c: char) -> (r: bool)
    ensures
        r == char_at(s@, i as int, c),
{
    i < s.len() && s[i] == c
}

fn digit_at_exec(s: &[char], i: usize) -> (r: bool)
    ensures
        r == digit_at(s@, i as int),
{
    i < s.len() && char_is_digit(s[i])
}

fn level_end_exec(s: &[char], i: usize) -> (r: Option<usize>)
    requires
        i <= s.len(),
    ensures
        as_opt(r) == level_end(s@, i as int),
{
    let debug = ['D', 'E', 'B', 'U', 'G'];
    let info = ['I', 'N', 'F', 'O'];
    let warn = ['W', 'A', 'R', 'N'];
    let error = ['E', 'R', 'R', 'O', 'R'];
    let fatal = ['F', 'A', 'T', 'A', 'L'];
    assert(debug@ == seq!['D', 'E', 'B', 'U', 'G']);
    assert(info@ == seq!['I', 'N', 'F', 'O']);
    assert(warn@ == seq!['W', 'A', 'R', 'N']);
    assert(error@ == seq!['E', 'R', 'R', 'O', 'R']);
    assert(fatal@ == seq!['F', 'A', 'T', 'A', 'L']);
    proof { crate::text::lemma_slice_len_fits(s); }
    if matches_at(s, &debug, i) {
        Some(i + 5)
    } else if matches_at(s, &info, i) {
        Some(i + 4)
    } else if matches_at(s, &warn, i) {
        Some(i + 4)
    } else if matches_at(s, &error, i) {
        Some(i + 5)
    } else if matches_at(s, &fatal, i) {
        Some(i + 5)
    } else {
        None
    }
}

pub open spec fn as_opt(r: Option<usize>) -> Option<int> {
    match r {
        Some(i) => Some(i as int),
        None => None,
    }
}

fn tagged_prefix_exec(s: &[char]) -> (r: Option<usize>)
    ensures
        as_opt(r) == tagged_prefix(s@),
        match r {
            Some(e) => e <= s.len(),
            None => true,
        },
{
    if !(s.len() >= 2 && (s[0] == 'D' || s[0] == 'I' || s[0] == 'W' || s[0] == 'E' || s[0] == 'F') && s[1] == ',') {
        return None;
    }
    let close = [']'];
    assert(close@ == seq![']']);
    let c = match find_in(s, &close, 2) {
        Some(c) => c,
        None => return None,
    };
    proof { crate::text::lemma_slice_len_fits(s); }
    let b = space_end_exec(s, c + 1);
    if !(c > 2 && b > c + 1) {
        return None;
    }
    let l = match level_end_exec(s, b) {
        Some(l) => l,
        None => return None,
    };
    let l2 = space_end_exec(s, l);
    let dashes = ['-', '-'];
    assert(dashes@ == seq!['-', '-']);
    if !(l2 > l && matches_at(s, &dashes, l2)) {
        return None;
    }
    let l3 = space_end_exec(s, l2 + 2);
    if !at(s, l3, ':') {
        return None;
    }
    Some(space_end_exec(s, l3 + 1))
}

fn bracket_prefix_exec(s: &[char]) -> (r: Option<usize>)
    ensures
        as_opt(r) == bracket_prefix(s@),
        match r {
            Some(e) => e <= s.len(),
            None => true,
        },
{
    let close = [']'];
    assert(close@ == seq![']']);
    let c = match find_in(s, &close, 0) {
        Some(c) => c,
        None => return None,
    };
    proof { crate::text::lemma_slice_len_fits(s); }
    let a = space_end_exec(s, c + 1);
    if c >= 1 && at(s, a, ':') {
        Some(space_end_exec(s, a + 1))
    } else {
        None
    }
}

fn date_prefix_exec(s: &[char]) -> (r: Option<usize>)
    ensures
        as_opt(r) == date_prefix(s@),
        match r {
            Some(e) => e <= s.len(),
            None => true,
        },
{
    if digit_at_exec(s, 0) && digit_at_exec(s, 1) && digit_at_exec(s, 2) && digit_at_exec(s, 3) && at(s, 4, '-')
        && digit_at_exec(s, 5) && digit_at_exec(s, 6) && at(s, 7, '-') && digit_at_exec(s, 8)
        && digit_at_exec(s, 9) && 10 < s.len() && (s[10] == 'T' || char_is_space(s[10]))
        && digit_at_exec(s, 11) && digit_at_exec(s, 12) && at(s, 13, ':') && digit_at_exec(s, 14)
        && digit_at_exec(s, 15) && at(s, 16, ':') && digit_at_exec(s, 17) && digit_at_exec(s, 18) {
        let e = run_end_exec(s, 19, false);
        let f = space_end_exec(s, e);
        if f > e {
            Some(f)
        } else {
            None
        }
    } else {
        None
    }
}

/// Where the line's text starts once a timestamp prefix, if any, is skipped.
pub fn timestamp_prefix_end(s: &[char]) -> (r: usize)
    ensures
        r as int == prefix_end(s@),
        r <= s.len(),
{
    match tagged_prefix_exec(s) {
        Some(e) => e,
        None => match bracket_prefix_exec(s) {
            Some(e) => e,
            None => match date_prefix_exec(s) {
                Some(e) => e,
                None => 0,
            },
        },
    }
}

} // verus!

verus! {

// ---------------------------------------------------------------------------
// Startup errors
// ---------------------------------------------------------------------------

pub open spec fn has_text(s: Seq<char>, p: &str) -> bool {
    contains(s, p@)
}

/// Which startup error a line reports, by phrases of its lower-cased text.
pub open spec fn startup_error_kind(line: Seq<char>) -> int {
    let l = lower_seq(line);
    if has_text(l, "pending migration") || (has_text(l, "migrations") && has_text(l, "pending")) || has_text(
        l,
        "run `bin/rails db:migrate`",
    ) {
        1
    } else if (has_text(l, "database") && has_text(l, "does not exist")) || has_text(l, "unknown database") {
        2
    } else if has_text(l, "could not connect to server") || has_text(l, "connection refused") || has_text(
        l,
        "no connection",
    ) || (has_text(l, "connection") && has_text(l, "fail")) || has_text(l, "activerecord::connectionnotestablished") {
        3
    } else if has_text(l, "could not find gem") || has_text(l, "gem::loaderror") || (has_text(
        l,
        "cannot load such file",
    ) && has_text(line, "gem")) {
        4
    } else if has_text(l, "bundler::gemnotfound") || has_text(l, "your bundle is locked") || (has_text(
        l,
        "bundle install",
    ) && has_text(l, "error")) {
        5
    } else if has_text(l, "address already in use") || (has_text(l, "port") && has_text(l, "already in use")) {
        6
    } else if has_text(l, "secret_key_base") || (has_text(l, "config") && (has_text(l, "missing") || has_text(
        l,
        "invalid",
    ))) || (has_text(l, "credentials") && has_text(l, "error")) {
        7
    } else if (has_text(l, "rails") || has_text(l, "rack")) && (has_text(l, "error") || has_text(l, "failed"))
        && !has_text(l, "test") {
        8
    } else {
        0
    }
}

/// The text between an opening needle `open` (found first) and the next `close`.
pub open spec fn quoted_after(line: Seq<char>, open: Seq<char>, close: char) -> Option<Seq<char>> {
    match index_of(line, open, 0) {
        Some(st) => {
            let rest = line.skip(st + open.len());
            match index_of(rest, seq![close], 0) {
                Some(e) => Some(rest.take(e)),
                None => None,
            }
        },
        None => None,
    }
}

pub open spec fn unknown_name() -> Seq<char> {
    seq!['u', 'n', 'k', 'n', 'o', 'w', 'n']
}

/// The database name quoted after `database "` or else `database '`.
pub open spec fn database_name(line: Seq<char>) -> Seq<char> {
    match quoted_after(line, seq!['d', 'a', 't', 'a', 'b', 'a', 's', 'e', ' ', '"'], '"') {
        Some(n) => n,
        None => match quoted_after(line, seq!['d', 'a', 't', 'a', 'b', 'a', 's', 'e', ' ', '\''], '\'') {
            Some(n) => n,
            None => unknown_name(),
        },
    }
}

/// The gem name quoted after `gem '` or else `gem "`.
pub open spec fn gem_name(line: Seq<char>) -> Seq<char> {
    match quoted_after(line, seq!['g', 'e', 'm', ' ', '\''], '\'') {
        Some(n) => n,
        None => match quoted_after(line, seq!['g', 'e', 'm', ' ', '"'], '"') {
            Some(n) => n,
            None => unknown_name(),
        },
    }
}

/// `w` without the non-digit characters at either end.
pub open spec fn trim_nondigits(w: Seq<char>) -> Seq<char>
    decreases w.len(),
{
    if w.len() > 0 && !is_digit(w[0]) {
        trim_nondigits(w.drop_first())
    } else if w.len() > 0 && !is_digit(w.last()) {
        trim_nondigits(w.drop_last())
    } else {
        w
    }
}

/// The port given by the word after the first word that mentions `port`
/// and is followed by a word holding a port number, scanning from `i`.
pub open spec fn port_from(s: Seq<char>, i: int) -> Option<nat>
    decreases s.len() - i,
{
    let a = space_end(s, i);
    if i < 0 || a >= s.len() {
        None
    } else {
        let e = run_end(s, a, false);
        if e <= i || e > s.len() {
            None
        } else {
            let a2 = space_end(s, e);
            let next = if contains(lower_seq(s.subrange(a, e)), seq!['p', 'o', 'r', 't']) && a2 < s.len() {
                parse_bounded(trim_nondigits(s.subrange(a2, run_end(s, a2, false))), 65535)
            } else {
                None
            };
            match next {
                Some(p) => Some(p),
                None => port_from(s, e),
            }
        }
    }
}

/// The port an address-in-use error names, 3000 when it names none.
pub open spec fn port_of(line: Seq<char>) -> nat {
    match port_from(line, 0) {
        Some(p) => p,
        None => 3000,
    }
}

fn has_str(s: &[char], p: &str) -> (r: bool)
    ensures
        r == has_text(s@, p),
{
    let pc = chars_of(p);
    has(s, &pc)
}

fn startup_error_kind_exec(line: &[char]) -> (r: u8)
    ensures
        r as int == startup_error_kind(line@),
{
    let lv = to_lower(line);
    let l = lv.as_slice();
    if has_str(l, "pending migration") || (has_str(l, "migrations") && has_str(l, "pending")) || has_str(
        l,
        "run `bin/rails db:migrate`",
    ) {
        1
    } else if (has_str(l, "database") && has_str(l, "does not exist")) || has_str(l, "unknown database") {
        2
    } else if has_str(l, "could not connect to server") || has_str(l, "connection refused") || has_str(
        l,
        "no connection",
    ) || (has_str(l, "connection") && has_str(l, "fail")) || has_str(l, "activerecord::connectionnotestablished") {
        3
    } else if has_str(l, "could not find gem") || has_str(l, "gem::loaderror") || (has_str(
        l,
        "cannot load such file",
    ) && has_str(line, "gem")) {
        4
    } else if has_str(l, "bundler::gemnotfound") || has_str(l, "your bundle is locked") || (has_str(
        l,
        "bundle install",
    ) && has_str(l, "error")) {
        5
    } else if has_str(l, "address already in use") || (has_str(l, "port") && has_str(l, "already in use")) {
        6
    } else if has_str(l, "secret_key_base") || (has_str(l, "config") && (has_str(l, "missing") || has_str(
        l,
        "invalid",
    ))) || (has_str(l, "credentials") && has_str(l, "error")) {
        7
    } else if (has_str(l, "rails") || has_str(l, "rack")) && (has_str(l, "error") || has_str(l, "failed"))
        && !has_str(l, "test") {
        8
    } else {
        0
    }
}

fn quoted_after_exec(line: &[char], open: &[char], close: char) -> (r: Option<Vec<char>>)
    ensures
        match r {
            Some(n) => quoted_after(line@, open@, close) == Some(n@),
            None => quoted_after(line@, open@, close) is None,
        },
{
    let st = match find_in(line, open, 0) {
        Some(st) => st,
        None => return None,
    };
    let n = line.len();
    let rest = slice_vec(line, st + open.len(), n);
    assert(rest@ == line@.skip(st + open@.len()));
    let cl = [close];
    assert(cl@ == seq![close]);
    match find_in(&rest, &cl, 0) {
        Some(e) => {
            let name = slice_vec(&rest, 0, e);
            assert(name@ == rest@.take(e as int));
            Some(name)
        },
        None => None,
    }
}

fn unknown() -> (r: Vec<char>)
    ensures
        r@ == unknown_name(),
{
    let u = ['u', 'n', 'k', 'n', 'o', 'w', 'n'];
    slice_vec(&u, 0, 7)
}

fn database_name_exec(line: &[char]) -> (r: Vec<char>)
    ensures
        r@ == database_name(line@),
{
    let dq = ['d', 'a', 't', 'a', 'b', 'a', 's', 'e', ' ', '"'];
    let sq = ['d', 'a', 't', 'a', 'b', 'a', 's', 'e', ' ', '\''];
    assert(dq@ == seq!['d', 'a', 't', 'a', 'b', 'a', 's', 'e', ' ', '"']);
    assert(sq@ == seq!['d', 'a', 't', 'a', 'b', 'a', 's', 'e', ' ', '\'']);
    match quoted_after_exec(line, &dq, '"') {
        Some(n) => n,
        None => match quoted_after_exec(line, &sq, '\'') {
            Some(n) => n,
            None => unknown(),
        },
    }
}

fn gem_name_exec(line: &[char]) -> (r: Vec<char>)
    ensures
        r@ == gem_name(line@),
{
    let sq = ['g', 'e', 'm', ' ', '\''];
    let dq = ['g', 'e', 'm', ' ', '"'];
    assert(sq@ == seq!['g', 'e', 'm', ' ', '\'']);
    assert(dq@ == seq!['g', 'e', 'm', ' ', '"']);
    match quoted_after_exec(line, &sq, '\'') {
        Some(n) => n,
        None => match quoted_after_exec(line, &dq, '"') {
            Some(n) => n,
            None => unknown(),
        },
    }
}

fn trim_nondigits_exec(s: &[char], lo: usize, hi: usize) -> (r: (usize, usize))
    requires
        lo <= hi <= s.len(),
    ensures
        lo <= r.0 <= r.1 <= hi,
        trim_nondigits(s@.subrange(lo as int, hi as int)) == s@.subrange(r.0 as int, r.1 as int),
{
    let mut a: usize = lo;
    let mut b: usize = hi;
    while a < b && (!char_is_digit(s[a]) || !char_is_digit(s[b - 1]))
        invariant
            lo <= a <= b <= hi <= s.len(),
            trim_nondigits(s@.subrange(lo as int, hi as int)) == trim_nondigits(s@.subrange(a as int, b as int)),
        decreases b - a,
    {
        let ghost w = s@.subrange(a as int, b as int);
        if !char_is_digit(s[a]) {
            assert(w.drop_first() == s@.subrange(a + 1, b as int));
            a += 1;
        } else {
            assert(w.drop_last() == s@.subrange(a as int, b - 1));
            b -= 1;
        }
    }
    (a, b)
}

pub(crate) proof fn lemma_space_end_stops(s: Seq<char>, i: int)
    requires
        0 <= i <= s.len(),
    ensures
        i <= space_end(s, i) <= s.len(),
        space_end(s, i) < s.len() ==> !is_space(s[space_end(s, i)]),
    decreases s.len() - i,
{
    if i < s.len() && is_space(s[i]) {
        lemma_space_end_stops(s, i + 1);
    }
}

pub(crate) proof fn lemma_run_end_grows(s: Seq<char>, i: int, word: bool)
    requires
        0 <= i <= s.len(),
    ensures
        i <= run_end(s, i, word) <= s.len(),
    decreases s.len() - i,
{
    if i < s.len() && (if word { is_word(s[i]) } else { !is_space(s[i]) }) {
        lemma_run_end_grows(s, i + 1, word);
    }
}

fn port_of_exec(s: &[char]) -> (r: u16)
    ensures
        r as nat == port_of(s@),
{
    let mut i: usize = 0;
    while i <= s.len()
        invariant
            i <= s.len(),
            port_from(s@, 0) == port_from(s@, i as int),
        decreases s.len() - i,
    {
        let a = space_end_exec(s, i);
        if a >= s.len() {
            return 3000;
        }
        let e = run_end_exec(s, a, false);
        proof {
            lemma_space_end_stops(s@, i as int);
            lemma_run_end_grows(s@, a + 1, false);
        }
        let a2 = space_end_exec(s, e);
        let word = slice_vec(s, a, e);
        let lw = to_lower(&word);
        let pt = ['p', 'o', 'r', 't'];
        assert(pt@ == seq!['p', 'o', 'r', 't']);
        if has(&lw, &pt) && a2 < s.len() {
            let e2 = run_end_exec(s, a2, false);
            let (x, y) = trim_nondigits_exec(s, a2, e2);
            match parse_number(s, x, y, 65535) {
                Some(p) => {
                    return p as u16;
                },
                None => {},
            }
        }
        i = e;
    }
    3000
}

} // verus!

verus! {

// ---------------------------------------------------------------------------
// Request lines
// ---------------------------------------------------------------------------

/// Character classes that may follow a key: 0 upper-case, 1 non-space, 2 digit.
pub open spec fn class_ok(c: char, kind: int) -> bool {
    if kind == 0 {
        is_upper(c)
    } else if kind == 1 {
        !is_space(c)
    } else {
        is_digit(c)
    }
}

/// The first position at or after `i` where `key` occurs followed by a
/// character of class `kind`.
pub open spec fn key_from(s: Seq<char>, key: Seq<char>, i: int, kind: int) -> Option<int>
    decreases s.len() + 1 - i,
{
    if i < 0 || i > s.len() {
        None
    } else if occurs_at(s, key, i) && i + key.len() < s.len() && class_ok(s[i + key.len()], kind) {
        Some(i)
    } else {
        key_from(s, key, i + 1, kind)
    }
}

pub open spec fn method_key() -> Seq<char> {
    seq!['m', 'e', 't', 'h', 'o', 'd', '=']
}

pub open spec fn path_key() -> Seq<char> {
    seq!['p', 'a', 't', 'h', '=']
}

pub open spec fn status_key() -> Seq<char> {
    seq!['s', 't', 'a', 't', 'u', 's', '=']
}

pub open spec fn duration_key() -> Seq<char> {
    seq!['d', 'u', 'r', 'a', 't', 'i', 'o', 'n', '=']
}

/// `method=<UPPER>` and a later `path=<non-space>`: the bounds of the method
/// and of the path.
pub open spec fn key_value_start(s: Seq<char>) -> Option<(int, int, int, int)> {
    match key_from(s, method_key(), 0, 0) {
        Some(m) => {
            let me = upper_end(s, m + 7);
            match key_from(s, path_key(), me, 1) {
                Some(p) => Some((m + 7, me, p + 5, run_end(s, p + 5, false))),
                None => None,
            }
        },
        None => None,
    }
}

/// A single-line request: the key-value start, then `status=<digits>`, then
/// `duration=<number>`: the bounds of method and path, of the status digits,
/// and where the duration starts.
pub open spec fn single_line_request(s: Seq<char>) -> Option<(int, int, int, int, int, int, int)> {
    match key_value_start(s) {
        Some((ms, me, ps, pe)) => match key_from(s, status_key(), pe, 2) {
            Some(st) => {
                let se = digit_end(s, st + 7);
                match key_from(s, duration_key(), se, 2) {
                    Some(du) => Some((ms, me, ps, pe, st + 7, se, du + 9)),
                    None => None,
                }
            },
            None => None,
        },
        None => None,
    }
}

/// The end of the HTTP method word at `i`.
pub open spec fn http_method_end(s: Seq<char>, i: int) -> Option<int> {
    if occurs_at(s, seq!['G', 'E', 'T'], i) {
        Some(i + 3)
    } else if occurs_at(s, seq!['P', 'O', 'S', 'T'], i) {
        Some(i + 4)
    } else if occurs_at(s, seq!['P', 'U', 'T'], i) {
        Some(i + 3)
    } else if occurs_at(s, seq!['P', 'A', 'T', 'C', 'H'], i) {
        Some(i + 5)
    } else if occurs_at(s, seq!['D', 'E', 'L', 'E', 'T', 'E'], i) {
        Some(i + 6)
    } else if occurs_at(s, seq!['H', 'E', 'A', 'D'], i) {
        Some(i + 4)
    } else if occurs_at(s, seq!['O', 'P', 'T', 'I', 'O', 'N', 'S'], i) {
        Some(i + 7)
    } else {
        None
    }
}

pub open spec fn started_key() -> Seq<char> {
    seq!['S', 't', 'a', 'r', 't', 'e', 'd', ' ']
}

/// `Started <METHOD> "<path>"` or `Started <METHOD> <path>` at `i`: the
/// bounds of the method and of the path.
pub open spec fn started_at(s: Seq<char>, i: int) -> Option<(int, int, int, int)> {
    if occurs_at(s, started_key(), i) {
        match http_method_end(s, i + 8) {
            Some(me) => {
                let b = space_end(s, me);
                if b > me && b < s.len() {
                    let quoted = if s[b] == '"' {
                        match index_of(s, seq!['"'], b + 1) {
                            Some(c) => if c > b + 1 { Some(c) } else { None },
                            None => None,
                        }
                    } else {
                        None
                    };
                    match quoted {
                        Some(c) => Some((i + 8, me, b + 1, c)),
                        None => Some((i + 8, me, b, run_end(s, b, false))),
                    }
                } else {
                    None
                }
            },
            None => None,
        }
    } else {
        None
    }
}

/// The first request start in the traditional format at or after `i`.
pub open spec fn started_from(s: Seq<char>, i: int) -> Option<(int, int, int, int)>
    decreases s.len() + 1 - i,
{
    if i < 0 || i > s.len() {
        None
    } else {
        match started_at(s, i) {
            Some(r) => Some(r),
            None => started_from(s, i + 1),
        }
    }
}

pub open spec fn processing_key() -> Seq<char> {
    seq!['P', 'r', 'o', 'c', 'e', 's', 's', 'i', 'n', 'g', ' ', 'b', 'y', ' ']
}

/// `Processing by <controller>#<action>` at `i`: the bounds of both names.
pub open spec fn processing_at(s: Seq<char>, i: int) -> Option<(int, int, int)> {
    if occurs_at(s, processing_key(), i) {
        match index_of(s, seq!['#'], i + 14) {
            Some(h) => {
                let w = run_end(s, h + 1, true);
                if h > i + 14 && w > h + 1 {
                    Some((h, h + 1, w))
                } else {
                    None
                }
            },
            None => None,
        }
    } else {
        None
    }
}

pub open spec fn processing_from(s: Seq<char>, i: int) -> Option<(int, int, int, int)>
    decreases s.len() + 1 - i,
{
    if i < 0 || i > s.len() {
        None
    } else {
        match processing_at(s, i) {
            Some((h, a, w)) => Some((i + 14, h, a, w)),
            None => processing_from(s, i + 1),
        }
    }
}

pub open spec fn completed_key() -> Seq<char> {
    seq!['C', 'o', 'm', 'p', 'l', 'e', 't', 'e', 'd', ' ']
}

/// `Completed <status> <word> in <number>ms` at `i`: the bounds of the
/// status digits and where the duration starts.
pub open spec fn completed_at(s: Seq<char>, i: int) -> Option<(int, int, int)> {
    if occurs_at(s, completed_key(), i) {
        let a = i + 10;
        let d1 = digit_end(s, a);
        let b = space_end(s, d1);
        let w = run_end(s, b, true);
        let c = space_end(s, w);
        let d = space_end(s, c + 2);
        if d1 > a && b > d1 && w > b && c > w && occurs_at(s, seq!['i', 'n'], c) && d > c + 2 && digit_at(s, d)
            && occurs_at(s, seq!['m', 's'], number_end(s, d)) {
            Some((a, d1, d))
        } else {
            None
        }
    } else {
        None
    }
}

pub open spec fn completed_from(s: Seq<char>, i: int) -> Option<(int, int, int)>
    decreases s.len() + 1 - i,
{
    if i < 0 || i > s.len() {
        None
    } else {
        match completed_at(s, i) {
            Some(r) => Some(r),
            None => completed_from(s, i + 1),
        }
    }
}

} // verus!

verus! {

// ---------------------------------------------------------------------------
// Query lines
// ---------------------------------------------------------------------------

pub open spec fn is_label_char(c: char) -> bool {
    is_word(c) || is_space(c)
}

/// The start of the run of word and whitespace characters that ends at `j`.
pub open spec fn label_start(s: Seq<char>, j: int) -> int
    decreases j,
{
    if 0 < j <= s.len() && is_label_char(s[j - 1]) {
        label_start(s, j - 1)
    } else {
        j
    }
}

pub open spec fn sql_verb_at(s: Seq<char>, b: int) -> bool {
    occurs_at(s, seq!['S', 'E', 'L', 'E', 'C', 'T'], b) || occurs_at(s, seq!['I', 'N', 'S', 'E', 'R', 'T'], b)
        || occurs_at(s, seq!['U', 'P', 'D', 'A', 'T', 'E'], b) || occurs_at(s, seq!['D', 'E', 'L', 'E', 'T', 'E'], b)
}

/// At `j`: a label, then `(<number>ms)`, whitespace, a query verb and more text.
pub open spec fn timed_sql_at(s: Seq<char>, j: int) -> bool {
    let ne = number_end(s, j + 1);
    let b = space_end(s, ne + 3);
    &&& char_at(s, j, '(')
    &&& j >= 1
    &&& is_label_char(s[j - 1])
    &&& digit_at(s, j + 1)
    &&& occurs_at(s, seq!['m', 's', ')'], ne)
    &&& b > ne + 3
    &&& sql_verb_at(s, b)
    &&& b + 6 < s.len()
}

pub open spec fn timed_sql_from(s: Seq<char>, j: int) -> Option<int>
    decreases s.len() + 1 - j,
{
    if j < 0 || j > s.len() {
        None
    } else if timed_sql_at(s, j) {
        Some(j)
    } else {
        timed_sql_from(s, j + 1)
    }
}

/// `s` without its `/* ... */` comments.
pub open spec fn strip_comments(s: Seq<char>) -> Seq<char>
    decreases s.len(),
{
    if s.len() == 0 {
        s
    } else {
        let close = if occurs_at(s, seq!['/', '*'], 0) {
            index_of(s, seq!['*', '/'], 2)
        } else {
            None
        };
        match close {
            Some(e) => if 2 <= e && e + 2 <= s.len() {
                strip_comments(s.skip(e + 2))
            } else {
                s
            },
            None => seq![s[0]] + strip_comments(s.drop_first()),
        }
    }
}

pub open spec fn has_sql_verb(s: Seq<char>) -> bool {
    has_text(s, "SELECT") || has_text(s, "INSERT") || has_text(s, "UPDATE") || has_text(s, "DELETE")
        || has_text(s, "BEGIN") || has_text(s, "COMMIT") || has_text(s, "ROLLBACK")
}

pub open spec fn has_error_word(s: Seq<char>) -> bool {
    has_text(s, "ERROR") || has_text(s, "FATAL") || has_text(s, "Exception")
}

/// A status code's digits, read as `u16`, or 0 when they do not fit.
pub open spec fn status_value(d: Seq<char>) -> u16 {
    match parse_bounded(d, 65535) {
        Some(v) => v as u16,
        None => 0,
    }
}

fn strip_comments_exec(s: &[char]) -> (r: Vec<char>)
    ensures
        r@ == strip_comments(s@),
{
    let open = ['/', '*'];
    let close = ['*', '/'];
    assert(open@ == seq!['/', '*']);
    assert(close@ == seq!['*', '/']);
    let mut out: Vec<char> = Vec::new();
    let mut i: usize = 0;
    assert(s@.subrange(0, s@.len() as int) == s@);
    while i < s.len()
        invariant
            i <= s@.len(),
            open@ == seq!['/', '*'],
            close@ == seq!['*', '/'],
            out@ + strip_comments(s@.subrange(i as int, s@.len() as int)) == strip_comments(s@),
        decreases s.len() - i,
    {
        let ghost rest = s@.subrange(i as int, s@.len() as int);
        let ghost before = out@;
        let mut skip_to: Option<usize> = None;
        if matches_at(s, &open, i) {
            assert(rest.subrange(0, 2) == s@.subrange(i as int, i + 2));
            match find_in(s, &close, i + 2) {
                Some(e) => {
                    skip_to = Some(e + 2);
                    assert(index_of(rest, seq!['*', '/'], 2) == Some(e - i)) by {
                        crate::text::lemma_index_shift(s@, close@, i as int, i + 2);
                    }
                },
                None => {
                    assert(index_of(rest, seq!['*', '/'], 2) is None) by {
                        crate::text::lemma_index_shift(s@, close@, i as int, i + 2);
                    }
                },
            }
        } else {
            assert(!occurs_at(rest, seq!['/', '*'], 0)) by {
                if occurs_at(rest, seq!['/', '*'], 0) {
                    assert(rest.subrange(0, 2) == s@.subrange(i as int, i + 2));
                }
            }
        }
        match skip_to {
            Some(j) => {
                assert(rest.skip(j - i) == s@.subrange(j as int, s@.len() as int));
                i = j;
            },
            None => {
                out.push(s[i]);
                assert(rest.drop_first() == s@.subrange(i + 1, s@.len() as int));
                i += 1;
            },
        }
    }
    assert(out@ + Seq::<char>::empty() == out@);
    out
}

} // verus!

verus! {

pub open spec fn as3(r: Option<(usize, usize, usize)>) -> Option<(int, int, int)> {
    match r {
        Some((a, b, c)) => Some((a as int, b as int, c as int)),
        None => None,
    }
}

pub open spec fn as4(r: Option<(usize, usize, usize, usize)>) -> Option<(int, int, int, int)> {
    match r {
        Some((a, b, c, d)) => Some((a as int, b as int, c as int, d as int)),
        None => None,
    }
}

fn class_ok_exec(c: char, kind: u8) -> (r: bool)
    ensures
        r == class_ok(c, kind as int),
{
    if kind == 0 {
        'A' <= c && c <= 'Z'
    } else if kind == 1 {
        !char_is_space(c)
    } else {
        char_is_digit(c)
    }
}

fn key_from_exec(s: &[char], key: &[char], from: usize, kind: u8) -> (r: Option<usize>)
    ensures
        as_opt(r) == key_from(s@, key@, from as int, kind as int),
        match r {
            Some(j) => j + key@.len() < s@.len(),
            None => true,
        },
{
    if from > s.len() {
        return None;
    }
    let mut i: usize = from;
    while i <= s.len()
        invariant
            from <= i,
            i <= s@.len() + 1,
            key_from(s@, key@, from as int, kind as int) == key_from(s@, key@, i as int, kind as int),
        decreases s.len() + 1 - i,
    {
        if matches_at(s, key, i) && i + key.len() < s.len() && class_ok_exec(s[i + key.len()], kind) {
            return Some(i);
        }
        if i == s.len() {
            assert(key_from(s@, key@, i + 1, kind as int) is None);
            return None;
        }
        i += 1;
    }
    None
}

fn http_method_end_exec(s: &[char], i: usize) -> (r: Option<usize>)
    ensures
        as_opt(r) == http_method_end(s@, i as int),
        match r {
            Some(e) => e <= s@.len(),
            None => true,
        },
{
    let get = ['G', 'E', 'T'];
    let post = ['P', 'O', 'S', 'T'];
    let put = ['P', 'U', 'T'];
    let patch = ['P', 'A', 'T', 'C', 'H'];
    let delete = ['D', 'E', 'L', 'E', 'T', 'E'];
    let head = ['H', 'E', 'A', 'D'];
    let options = ['O', 'P', 'T', 'I', 'O', 'N', 'S'];
    assert(get@ == seq!['G', 'E', 'T']);
    assert(post@ == seq!['P', 'O', 'S', 'T']);
    assert(put@ == seq!['P', 'U', 'T']);
    assert(patch@ == seq!['P', 'A', 'T', 'C', 'H']);
    assert(delete@ == seq!['D', 'E', 'L', 'E', 'T', 'E']);
    assert(head@ == seq!['H', 'E', 'A', 'D']);
    assert(options@ == seq!['O', 'P', 'T', 'I', 'O', 'N', 'S']);
    proof { crate::text::lemma_slice_len_fits(s); }
    if matches_at(s, &get, i) {
        Some(i + 3)
    } else if matches_at(s, &post, i) {
        Some(i + 4)
    } else if matches_at(s, &put, i) {
        Some(i + 3)
    } else if matches_at(s, &patch, i) {
        Some(i + 5)
    } else if matches_at(s, &delete, i) {
        Some(i + 6)
    } else if matches_at(s, &head, i) {
        Some(i + 4)
    } else if matches_at(s, &options, i) {
        Some(i + 7)
    } else {
        None
    }
}

fn started_at_exec(s: &[char], i: usize) -> (r: Option<(usize, usize, usize, usize)>)
    requires
        i <= s@.len(),
    ensures
        as4(r) == started_at(s@, i as int),
        match r {
            Some((a, b, c, d)) => a <= b <= s@.len() && c <= d <= s@.len(),
            None => true,
        },
{
    let key = ['S', 't', 'a', 'r', 't', 'e', 'd', ' '];
    assert(key@ == started_key());
    proof { crate::text::lemma_slice_len_fits(s); }
    if !matches_at(s, &key, i) {
        return None;
    }
    let me = match http_method_end_exec(s, i + 8) {
        Some(me) => me,
        None => return None,
    };
    proof {
        assert(occurs_at(s@, started_key(), i as int));
        if http_method_end(s@, i + 8) is Some {
            assert(i + 8 <= me);
        }
    }
    let b = space_end_exec(s, me);
    if !(b > me && b < s.len()) {
        return None;
    }
    let q = ['"'];
    assert(q@ == seq!['"']);
    let mut quoted: Option<usize> = None;
    if s[b] == '"' {
        match find_in(s, &q, b + 1) {
            Some(c) => {
                if c > b + 1 {
                    quoted = Some(c);
                }
            },
            None => {},
        }
    }
    match quoted {
        Some(c) => Some((i + 8, me, b + 1, c)),
        None => Some((i + 8, me, b, run_end_exec(s, b, false))),
    }
}

fn started_from_exec(s: &[char]) -> (r: Option<(usize, usize, usize, usize)>)
    ensures
        as4(r) == started_from(s@, 0),
        match r {
            Some((a, b, c, d)) => a <= b <= s@.len() && c <= d <= s@.len(),
            None => true,
        },
{
    let mut i: usize = 0;
    while i <= s.len()
        invariant
            i <= s@.len() + 1,
            started_from(s@, 0) == started_from(s@, i as int),
        decreases s.len() + 1 - i,
    {
        match started_at_exec(s, i) {
            Some(t) => {
                return Some(t);
            },
            None => {},
        }
        if i == s.len() {
            assert(started_from(s@, i + 1) is None);
            return None;
        }
        i += 1;
    }
    None
}

fn processing_from_exec(s: &[char]) -> (r: Option<(usize, usize, usize, usize)>)
    ensures
        as4(r) == processing_from(s@, 0),
        match r {
            Some((a, b, c, d)) => a <= b < c <= d <= s@.len(),
            None => true,
        },
{
    let key = ['P', 'r', 'o', 'c', 'e', 's', 's', 'i', 'n', 'g', ' ', 'b', 'y', ' '];
    assert(key@ == processing_key());
    let hash = ['#'];
    assert(hash@ == seq!['#']);
    let mut i: usize = 0;
    while i <= s.len()
        invariant
            i <= s@.len() + 1,
            key@ == processing_key(),
            hash@ == seq!['#'],
            processing_from(s@, 0) == processing_from(s@, i as int),
        decreases s.len() + 1 - i,
    {
        if matches_at(s, &key, i) {
            match find_in(s, &hash, i + 14) {
                Some(h) => {
                    let w = run_end_exec(s, h + 1, true);
                    if h > i + 14 && w > h + 1 {
                        return Some((i + 14, h, h + 1, w));
                    }
                },
                None => {},
            }
        }
        if i == s.len() {
            assert(processing_from(s@, i + 1) is None);
            return None;
        }
        i += 1;
    }
    None
}

fn completed_at_exec(s: &[char], i: usize) -> (r: Option<(usize, usize, usize)>)
    requires
        i <= s@.len(),
    ensures
        as3(r) == completed_at(s@, i as int),
        match r {
            Some((a, b, d)) => a <= b <= s@.len() && d <= s@.len(),
            None => true,
        },
{
    let key = ['C', 'o', 'm', 'p', 'l', 'e', 't', 'e', 'd', ' '];
    assert(key@ == completed_key());
    let n = s.len();
    if !matches_at(s, &key, i) {
        return None;
    }
    let a = i + 10;
    let d1 = digit_end_exec(s, a);
    let b = space_end_exec(s, d1);
    let w = run_end_exec(s, b, true);
    let c = space_end_exec(s, w);
    let inw = ['i', 'n'];
    let ms = ['m', 's'];
    assert(inw@ == seq!['i', 'n']);
    assert(ms@ == seq!['m', 's']);
    if !(d1 > a && b > d1 && w > b && c > w && matches_at(s, &inw, c)) {
        return None;
    }
    let d = space_end_exec(s, c + 2);
    if d > c + 2 && digit_at_exec(s, d) && matches_at(s, &ms, number_end_exec(s, d)) {
        Some((a, d1, d))
    } else {
        None
    }
}

fn completed_from_exec(s: &[char]) -> (r: Option<(usize, usize, usize)>)
    ensures
        as3(r) == completed_from(s@, 0),
        match r {
            Some((a, b, d)) => a <= b <= s@.len() && d <= s@.len(),
            None => true,
        },
{
    let mut i: usize = 0;
    while i <= s.len()
        invariant
            i <= s@.len() + 1,
            completed_from(s@, 0) == completed_from(s@, i as int),
        decreases s.len() + 1 - i,
    {
        match completed_at_exec(s, i) {
            Some(t) => {
                return Some(t);
            },
            None => {},
        }
        if i == s.len() {
            assert(completed_from(s@, i + 1) is None);
            return None;
        }
        i += 1;
    }
    None
}

fn sql_verb_at_exec(s: &[char], b: usize) -> (r: bool)
    ensures
        r == sql_verb_at(s@, b as int),
{
    let v1 = ['S', 'E', 'L', 'E', 'C', 'T'];
    let v2 = ['I', 'N', 'S', 'E', 'R', 'T'];
    let v3 = ['U', 'P', 'D', 'A', 'T', 'E'];
    let v4 = ['D', 'E', 'L', 'E', 'T', 'E'];
    assert(v1@ == seq!['S', 'E', 'L', 'E', 'C', 'T']);
    assert(v2@ == seq!['I', 'N', 'S', 'E', 'R', 'T']);
    assert(v3@ == seq!['U', 'P', 'D', 'A', 'T', 'E']);
    assert(v4@ == seq!['D', 'E', 'L', 'E', 'T', 'E']);
    matches_at(s, &v1, b) || matches_at(s, &v2, b) || matches_at(s, &v3, b) || matches_at(s, &v4, b)
}

fn timed_sql_at_exec(s: &[char], j: usize) -> (r: bool)
    requires
        j <= s@.len(),
    ensures
        r == timed_sql_at(s@, j as int),
{
    if !(at(s, j, '(') && j >= 1 && (char_is_word(s[j - 1]) || char_is_space(s[j - 1])) && digit_at_exec(s, j + 1)) {
        return false;
    }
    let ne = number_end_exec(s, j + 1);
    let close = ['m', 's', ')'];
    assert(close@ == seq!['m', 's', ')']);
    if !matches_at(s, &close, ne) {
        return false;
    }
    let b = space_end_exec(s, ne + 3);
    b > ne + 3 && sql_verb_at_exec(s, b) && b < s.len() && s.len() - b > 6
}

fn timed_sql_from_exec(s: &[char]) -> (r: Option<usize>)
    ensures
        as_opt(r) == timed_sql_from(s@, 0),
        match r {
            Some(j) => j < s@.len() && timed_sql_at(s@, j as int),
            None => true,
        },
{
    let mut j: usize = 0;
    while j <= s.len()
        invariant
            j <= s@.len() + 1,
            timed_sql_from(s@, 0) == timed_sql_from(s@, j as int),
        decreases s.len() + 1 - j,
    {
        if timed_sql_at_exec(s, j) {
            return Some(j);
        }
        if j == s.len() {
            assert(timed_sql_from(s@, j + 1) is None);
            return None;
        }
        j += 1;
    }
    None
}

fn label_start_exec(s: &[char], j: usize) -> (r: usize)
    requires
        j <= s@.len(),
    ensures
        r as int == label_start(s@, j as int),
        r <= j,
    decreases j,
{
    if j > 0 && (char_is_word(s[j - 1]) || char_is_space(s[j - 1])) {
        label_start_exec(s, j - 1)
    } else {
        j
    }
}

} // verus!

verus! {

/// `e` is the startup error of kind `k` (see `startup_error_kind`) on line `s`.
pub open spec fn startup_error_ok(s: Seq<char>, k: int, e: RailsError) -> bool {
    match e {
        RailsError::PendingMigrations => k == 1,
        RailsError::DatabaseNotFound(n) => k == 2 && n@ == database_name(s),
        RailsError::DatabaseConnectionFailed(t) => k == 3 && t@ == s,
        RailsError::MissingGem(n) => k == 4 && n@ == gem_name(s),
        RailsError::BundlerError(t) => k == 5 && t@ == s,
        RailsError::PortInUse(p) => k == 6 && p as nat == port_of(s),
        RailsError::ConfigurationError(t) => k == 7 && t@ == s,
        RailsError::GenericStartupError(t) => k == 8 && t@ == s,
    }
}

/// `h` is a request with the given method and path, and no controller or action.
pub open spec fn request_is(h: HttpRequest, method: Seq<char>, path: Seq<char>, status: Option<u16>, duration: Option<u64>) -> bool {
    &&& h.method@ == method
    &&& h.path@ == path
    &&& h.status == status
    &&& h.duration_us == duration
    &&& h.controller is None
    &&& h.action is None
}

/// The signal of the text `s` of a line (timestamp prefix skipped), checked
/// in order of precedence.
pub open spec fn classified_text(s: Seq<char>, r: Option<LogEvent>) -> bool {
    let k = startup_error_kind(s);
    if k != 0 {
        r matches Some(LogEvent::RailsStartupError(e)) && startup_error_ok(s, k, e)
    } else if single_line_request(s) is Some {
        let (ms, me, ps, pe, ss, se, ds) = single_line_request(s)->0;
        r matches Some(LogEvent::HttpRequest(h)) && request_is(
            h,
            s.subrange(ms, me),
            s.subrange(ps, pe),
            Some(status_value(s.subrange(ss, se))),
            Some(millis_to_micros(s, ds)),
        )
    } else if started_from(s, 0) is Some {
        let (ms, me, ps, pe) = started_from(s, 0)->0;
        r matches Some(LogEvent::HttpRequest(h)) && request_is(h, s.subrange(ms, me), s.subrange(ps, pe), None, None)
    } else if key_value_start(s) is Some {
        let (ms, me, ps, pe) = key_value_start(s)->0;
        r matches Some(LogEvent::HttpRequest(h)) && request_is(h, s.subrange(ms, me), s.subrange(ps, pe), None, None)
    } else if processing_from(s, 0) is Some {
        let (cs, h, a, w) = processing_from(s, 0)->0;
        r matches Some(LogEvent::Info(t)) && t@ == "Processing: "@ + s.subrange(cs, h) + seq!['#'] + s.subrange(a, w)
    } else if completed_from(s, 0) is Some {
        let (a, b, d) = completed_from(s, 0)->0;
        r matches Some(LogEvent::HttpRequest(h)) && request_is(
            h,
            Seq::empty(),
            Seq::empty(),
            Some(status_value(s.subrange(a, b))),
            Some(millis_to_micros(s, d)),
        )
    } else if timed_sql_from(s, 0) is Some {
        let j = timed_sql_from(s, 0)->0;
        let st = label_start(s, j);
        r matches Some(LogEvent::SqlQuery(q)) && q.query@ == trim(strip_comments(s.skip(st)))
            && q.duration_us == Some(millis_to_micros(s, j + 1)) && q.rows is None
            && (q.name matches Some(n) && n@ == trim(s.subrange(st, j)))
    } else if has_sql_verb(s) {
        r matches Some(LogEvent::SqlQuery(q)) && q.query@ == trim(strip_comments(s)) && q.duration_us is None
            && q.rows is None && q.name is None
    } else if has_error_word(s) {
        r matches Some(LogEvent::Error(t)) && t@ == s
    } else {
        r is None
    }
}

/// The signal of a whole line: its text after any timestamp prefix, classified.
pub open spec fn classified(line: Seq<char>, r: Option<LogEvent>) -> bool {
    classified_text(line.skip(prefix_end(line)), r)
}

fn status_exec(s: &[char], a: usize, b: usize) -> (r: u16)
    requires
        a <= b <= s@.len(),
    ensures
        r == status_value(s@.subrange(a as int, b as int)),
{
    match parse_number(s, a, b, 65535) {
        Some(v) => v as u16,
        None => 0,
    }
}

fn startup_error(s: &[char], k: u8) -> (r: RailsError)
    requires
        1 <= k <= 8,
        k as int == startup_error_kind(s@),
    ensures
        startup_error_ok(s@, k as int, r),
{
    if k == 1 {
        RailsError::PendingMigrations
    } else if k == 2 {
        RailsError::DatabaseNotFound(string_of(&database_name_exec(s)))
    } else if k == 3 {
        RailsError::DatabaseConnectionFailed(string_of(s))
    } else if k == 4 {
        RailsError::MissingGem(string_of(&gem_name_exec(s)))
    } else if k == 5 {
        RailsError::BundlerError(string_of(s))
    } else if k == 6 {
        RailsError::PortInUse(port_of_exec(s))
    } else if k == 7 {
        RailsError::ConfigurationError(string_of(s))
    } else {
        RailsError::GenericStartupError(string_of(s))
    }
}

fn request(s: &[char], ms: usize, me: usize, ps: usize, pe: usize, status: Option<u16>, duration: Option<u64>) -> (r: LogEvent)
    requires
        ms <= me <= s@.len(),
        ps <= pe <= s@.len(),
    ensures
        r matches LogEvent::HttpRequest(h) && request_is(
            h,
            s@.subrange(ms as int, me as int),
            s@.subrange(ps as int, pe as int),
            status,
            duration,
        ),
{
    LogEvent::HttpRequest(
        HttpRequest {
            method: string_of(&slice_vec(s, ms, me)),
            path: string_of(&slice_vec(s, ps, pe)),
            status,
            duration_us: duration,
            controller: None,
            action: None,
        },
    )
}

fn single_line_request_exec(s: &[char]) -> (r: Option<(usize, usize, usize, usize, usize, usize, usize)>)
    ensures
        match r {
            Some((ms, me, ps, pe, ss, se, ds)) => single_line_request(s@) == Some(
                (ms as int, me as int, ps as int, pe as int, ss as int, se as int, ds as int),
            ) && ms <= me <= s@.len() && ps <= pe <= s@.len() && ss <= se <= s@.len() && ds <= s@.len(),
            None => single_line_request(s@) is None,
        },
{
    let n = s.len();
    match key_value_exec(s) {
        Some((ms, me, ps, pe)) => {
            let sk = ['s', 't', 'a', 't', 'u', 's', '='];
            let dk = ['d', 'u', 'r', 'a', 't', 'i', 'o', 'n', '='];
            assert(sk@ == status_key());
            assert(dk@ == duration_key());
            match key_from_exec(s, &sk, pe, 2) {
                Some(st) => {
                    let se = digit_end_exec(s, st + 7);
                    match key_from_exec(s, &dk, se, 2) {
                        Some(du) => Some((ms, me, ps, pe, st + 7, se, du + 9)),
                        None => None,
                    }
                },
                None => None,
            }
        },
        None => None,
    }
}

fn key_value_exec(s: &[char]) -> (r: Option<(usize, usize, usize, usize)>)
    ensures
        as4(r) == key_value_start(s@),
        match r {
            Some((ms, me, ps, pe)) => ms <= me <= s@.len() && ps <= pe <= s@.len(),
            None => true,
        },
{
    let mk = ['m', 'e', 't', 'h', 'o', 'd', '='];
    let pk = ['p', 'a', 't', 'h', '='];
    assert(mk@ == method_key());
    assert(pk@ == path_key());
    proof { crate::text::lemma_slice_len_fits(s); }
    match key_from_exec(s, &mk, 0, 0) {
        Some(m) => {
            let me = upper_end_exec(s, m + 7);
            match key_from_exec(s, &pk, me, 1) {
                Some(p) => Some((m + 7, me, p + 5, run_end_exec(s, p + 5, false))),
                None => None,
            }
        },
        None => None,
    }
}

fn has_sql_verb_exec(s: &[char]) -> (r: bool)
    ensures
        r == has_sql_verb(s@),
{
    has_str(s, "SELECT") || has_str(s, "INSERT") || has_str(s, "UPDATE") || has_str(s, "DELETE") || has_str(
        s,
        "BEGIN",
    ) || has_str(s, "COMMIT") || has_str(s, "ROLLBACK")
}

/// Classifies the text of a line whose timestamp prefix is already skipped.
pub fn classify_text(s: &[char]) -> (r: Option<LogEvent>)
    ensures
        classified_text(s@, r),
{
    let k = startup_error_kind_exec(s);
    if k != 0 {
        return Some(LogEvent::RailsStartupError(startup_error(s, k)));
    }
    match single_line_request_exec(s) {
        Some((ms, me, ps, pe, ss, se, ds)) => {
            let status = status_exec(s, ss, se);
            let d = parse_millis(s, ds);
            return Some(request(s, ms, me, ps, pe, Some(status), Some(d)));
        },
        None => {},
    }
    match started_from_exec(s) {
        Some((ms, me, ps, pe)) => {
            return Some(request(s, ms, me, ps, pe, None, None));
        },
        None => {},
    }
    match key_value_exec(s) {
        Some((ms, me, ps, pe)) => {
            return Some(request(s, ms, me, ps, pe, None, None));
        },
        None => {},
    }
    match processing_from_exec(s) {
        Some((cs, h, a, w)) => {
            let mut t: Vec<char> = Vec::new();
            push_str(&mut t, "Processing: ");
            push_all(&mut t, &slice_vec(s, cs, h));
            t.push('#');
            push_all(&mut t, &slice_vec(s, a, w));
            assert(t@ =~= "Processing: "@ + s@.subrange(cs as int, h as int) + seq!['#'] + s@.subrange(a as int, w as int));
            return Some(LogEvent::Info(string_of(&t)));
        },
        None => {},
    }
    match completed_from_exec(s) {
        Some((a, b, d)) => {
            let status = status_exec(s, a, b);
            let dur = parse_millis(s, d);
            assert(s@.subrange(0, 0) =~= Seq::<char>::empty());
            return Some(request(s, 0, 0, 0, 0, Some(status), Some(dur)));
        },
        None => {},
    }
    match timed_sql_from_exec(s) {
        Some(j) => {
            let st = label_start_exec(s, j);
            let n = s.len();
            let tail = slice_vec(s, st, n);
            assert(tail@ == s@.skip(st as int));
            let q = trimmed(&strip_comments_exec(&tail));
            let name = trimmed(&slice_vec(s, st, j));
            return Some(
                LogEvent::SqlQuery(
                    SqlQuery {
                        query: string_of(&q),
                        duration_us: Some(parse_millis(s, j + 1)),
                        rows: None,
                        name: Some(string_of(&name)),
                    },
                ),
            );
        },
        None => {},
    }
    if has_sql_verb_exec(s) {
        let q = trimmed(&strip_comments_exec(s));
        return Some(LogEvent::SqlQuery(SqlQuery { query: string_of(&q), duration_us: None, rows: None, name: None }));
    }
    if has_str(s, "ERROR") || has_str(s, "FATAL") || has_str(s, "Exception") {
        return Some(LogEvent::Error(string_of(s)));
    }
    None
}

/// Reads one output line and classifies it.
pub struct RailsLogParser;

impl RailsLogParser {
    /// The signal of one line, if it carries one.
    pub fn parse_line(line: &str) -> (r: Option<LogEvent>)
        ensures
            classified(line@, r),
    {
        let l = chars_of(line);
        let start = timestamp_prefix_end(&l);
        let n = l.len();
        let text = slice_vec(&l, start, n);
        assert(text@ == line@.skip(prefix_end(line@)));
        classify_text(&text)
    }
}

} // verus!

verus! {

/// `s` with each occurrence of `p`, scanned left to right without overlap,
/// replaced by `[KW]p[/KW]`.
pub open spec fn mark_all(s: Seq<char>, p: Seq<char>) -> Seq<char>
    decreases s.len(),
{
    if s.len() == 0 {
        s
    } else if p.len() > 0 && starts_with(s, p) {
        "[KW]"@ + p + "[/KW]"@ + mark_all(s.skip(p.len() as int), p)
    } else {
        seq![s[0]] + mark_all(s.drop_first(), p)
    }
}

pub open spec fn sql_keyword(i: int) -> &'static str {
    if i == 0 { "SELECT" } else if i == 1 { "FROM" } else if i == 2 { "WHERE" } else if i == 3 { "INSERT" }
    else if i == 4 { "UPDATE" } else if i == 5 { "DELETE" } else if i == 6 { "JOIN" } else if i == 7 { "LEFT" }
    else if i == 8 { "RIGHT" } else if i == 9 { "INNER" } else if i == 10 { "OUTER" } else if i == 11 { "ON" }
    else if i == 12 { "GROUP BY" } else if i == 13 { "ORDER BY" } else if i == 14 { "LIMIT" }
    else if i == 15 { "OFFSET" } else if i == 16 { "AND" } else if i == 17 { "OR" } else if i == 18 { "NOT" }
    else if i == 19 { "IN" } else if i == 20 { "LIKE" } else if i == 21 { "BETWEEN" } else if i == 22 { "CREATE" }
    else if i == 23 { "ALTER" } else if i == 24 { "DROP" } else if i == 25 { "TABLE" } else if i == 26 { "INDEX" }
    else if i == 27 { "BEGIN" } else if i == 28 { "COMMIT" } else { "ROLLBACK" }
}

pub const N_SQL_KEYWORDS: usize = 30;

/// `s` with the first `n` SQL keywords marked, one keyword after another.
pub open spec fn highlighted(s: Seq<char>, n: int) -> Seq<char>
    decreases n,
{
    if n <= 0 {
        s
    } else {
        mark_all(highlighted(s, n - 1), sql_keyword(n - 1)@)
    }
}

fn sql_keyword_exec(i: usize) -> (r: &'static str)
    ensures
        r@ == sql_keyword(i as int)@,
{
    if i == 0 { "SELECT" } else if i == 1 { "FROM" } else if i == 2 { "WHERE" } else if i == 3 { "INSERT" }
    else if i == 4 { "UPDATE" } else if i == 5 { "DELETE" } else if i == 6 { "JOIN" } else if i == 7 { "LEFT" }
    else if i == 8 { "RIGHT" } else if i == 9 { "INNER" } else if i == 10 { "OUTER" } else if i == 11 { "ON" }
    else if i == 12 { "GROUP BY" } else if i == 13 { "ORDER BY" } else if i == 14 { "LIMIT" }
    else if i == 15 { "OFFSET" } else if i == 16 { "AND" } else if i == 17 { "OR" } else if i == 18 { "NOT" }
    else if i == 19 { "IN" } else if i == 20 { "LIKE" } else if i == 21 { "BETWEEN" } else if i == 22 { "CREATE" }
    else if i == 23 { "ALTER" } else if i == 24 { "DROP" } else if i == 25 { "TABLE" } else if i == 26 { "INDEX" }
    else if i == 27 { "BEGIN" } else if i == 28 { "COMMIT" } else { "ROLLBACK" }
}

fn mark_all_exec(s: &[char], p: &[char]) -> (r: Vec<char>)
    ensures
        r@ == mark_all(s@, p@),
{
    let mut out: Vec<char> = Vec::new();
    let mut i: usize = 0;
    assert(s@.subrange(0, s@.len() as int) == s@);
    while i < s.len()
        invariant
            i <= s@.len(),
            out@ + mark_all(s@.subrange(i as int, s@.len() as int), p@) == mark_all(s@, p@),
        decreases s.len() - i,
    {
        let ghost rest = s@.subrange(i as int, s@.len() as int);
        let ghost before = out@;
        if p.len() > 0 && matches_at(s, p, i) {
            assert(rest.subrange(0, p@.len() as int) == s@.subrange(i as int, i + p@.len()));
            push_str(&mut out, "[KW]");
            push_all(&mut out, p);
            push_str(&mut out, "[/KW]");
            assert(rest.skip(p@.len() as int) == s@.subrange(i + p@.len(), s@.len() as int));
            assert(out@ + mark_all(rest.skip(p@.len() as int), p@) == before + mark_all(rest, p@));
            i += p.len();
        } else {
            assert(!(p@.len() > 0 && starts_with(rest, p@))) by {
                if p@.len() > 0 && starts_with(rest, p@) {
                    assert(rest.subrange(0, p@.len() as int) == s@.subrange(i as int, i + p@.len()));
                }
            }
            out.push(s[i]);
            assert(rest.drop_first() == s@.subrange(i + 1, s@.len() as int));
            i += 1;
        }
    }
    assert(out@ + Seq::<char>::empty() == out@);
    out
}

impl RailsLogParser {
    /// `query` with its SQL keywords wrapped in `[KW]` and `[/KW]`.
    pub fn highlight_sql(query: &str) -> (r: String)
        ensures
            r@ == highlighted(query@, N_SQL_KEYWORDS as int),
    {
        let mut h = chars_of(query);
        let mut i: usize = 0;
        while i < N_SQL_KEYWORDS
            invariant
                i <= N_SQL_KEYWORDS,
                h@ == highlighted(query@, i as int),
            decreases N_SQL_KEYWORDS - i,
        {
            let kw = chars_of(sql_keyword_exec(i));
            h = mark_all_exec(&h, &kw);
            i += 1;
        }
        string_of(&h)
    }
}

} // verus!
