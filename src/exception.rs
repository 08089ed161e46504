//! Exception detection in raw output, with backtraces, grouping and severity.
use vstd::prelude::*;
use crate::rank::{is_permutation, rank_desc, ranked_by};
use crate::text::{
    all_digits, char_is_digit, chars_of, contains, ends_with, find_in, has, has_prefix, has_suffix,
    index_of, is_digit, matches_at, occurs_at, parse_bounded, parse_number, push_all, same_chars,
    slice_vec, starts_with, string_of, trim, trim_start, trim_start_index, trimmed,
};

verus! {

// ---------------------------------------------------------------------------
// Message normalization
// ---------------------------------------------------------------------------

/// Each maximal run of digits becomes `N`.
pub open spec fn digit_runs_pass(s: Seq<char>, skipping: bool) -> Seq<char>
    decreases s.len(),
{
    if s.len() == 0 {
        s
    } else if is_digit(s[0]) {
        if skipping {
            digit_runs_pass(s.drop_first(), true)
        } else {
            seq!['N'] + digit_runs_pass(s.drop_first(), true)
        }
    } else {
        seq![s[0]] + digit_runs_pass(s.drop_first(), false)
    }
}

/// Each closed literal quoted by `q` becomes `rep`; `inside` holds within one.
pub open spec fn quoted_pass(s: Seq<char>, q: char, rep: Seq<char>, inside: bool) -> Seq<char>
    decreases s.len(),
{
    if s.len() == 0 {
        s
    } else if inside {
        quoted_pass(s.drop_first(), q, rep, s[0] != q)
    } else if s[0] == q && s.drop_first().contains(q) {
        rep + quoted_pass(s.drop_first(), q, rep, true)
    } else {
        seq![s[0]] + quoted_pass(s.drop_first(), q, rep, false)
    }
}

pub open spec fn dq_str() -> Seq<char> {
    seq!['"', 'S', 'T', 'R', '"']
}

pub open spec fn sq_str() -> Seq<char> {
    seq!['\'', 'S', 'T', 'R', '\'']
}

/// The message with numbers as `N`, quoted text as `"STR"` or `'STR'`, cut
/// to at most 100 characters.
pub open spec fn normalize_message(m: Seq<char>) -> Seq<char> {
    let c = quoted_pass(
        quoted_pass(digit_runs_pass(m, false), '"', dq_str(), false),
        '\'',
        sq_str(),
        false,
    );
    if c.len() > 100 {
        c.take(100)
    } else {
        c
    }
}

proof fn lemma_rest(s: Seq<char>, i: int)
    requires
        0 <= i < s.len(),
    ensures
        s.subrange(i, s.len() as int)[0] == s[i],
        s.subrange(i, s.len() as int).drop_first() == s.subrange(i + 1, s.len() as int),
{
    assert(s.subrange(i, s.len() as int).drop_first() =~= s.subrange(i + 1, s.len() as int));
}

fn replace_digit_runs(s: &[char]) -> (r: Vec<char>)
    ensures
        r@ == digit_runs_pass(s@, false),
{
    let mut out: Vec<char> = Vec::new();
    let mut skipping = false;
    let mut i: usize = 0;
    assert(s@.subrange(0, s.len() as int) =~= s@);
    while i < s.len()
        invariant
            i <= s.len(),
            out@ + digit_runs_pass(s@.subrange(i as int, s.len() as int), skipping)
                == digit_runs_pass(s@, false),
        decreases s.len() - i,
    {
        proof { lemma_rest(s@, i as int); }
        let c = s[i];
        if char_is_digit(c) {
            if !skipping {
                out.push('N');
            }
            skipping = true;
        } else {
            out.push(c);
            skipping = false;
        }
        i += 1;
        assert(out@ + digit_runs_pass(s@.subrange(i as int, s.len() as int), skipping)
            == digit_runs_pass(s@, false));
    }
    assert(out@ + Seq::<char>::empty() == out@);
    out
}

fn occurs_after(s: &[char], i: usize, c: char) -> (r: bool)
    requires
        i < s.len(),
    ensures
        r == s@.subrange(i as int + 1, s.len() as int).contains(c),
{
    let mut j: usize = i + 1;
    while j < s.len()
        invariant
            i < j <= s.len(),
            forall|k: int| i < k < j ==> s@[k] != c,
        decreases s.len() - j,
    {
        if s[j] == c {
            assert(s@.subrange(i as int + 1, s.len() as int)[j - i - 1] == c);
            return true;
        }
        j += 1;
    }
    assert forall|k: int| 0 <= k < s@.subrange(i as int + 1, s.len() as int).len()
        implies #[trigger] s@.subrange(i as int + 1, s.len() as int)[k] != c by {
        assert(s@.subrange(i as int + 1, s.len() as int)[k] == s@[i + 1 + k]);
    }
    false
}

fn replace_quoted(s: &[char], q: char, rep: &[char]) -> (r: Vec<char>)
    ensures
        r@ == quoted_pass(s@, q, rep@, false),
{
    let mut out: Vec<char> = Vec::new();
    let mut inside = false;
    let mut i: usize = 0;
    assert(s@.subrange(0, s.len() as int) =~= s@);
    while i < s.len()
        invariant
            i <= s.len(),
            out@ + quoted_pass(s@.subrange(i as int, s.len() as int), q, rep@, inside)
                == quoted_pass(s@, q, rep@, false),
        decreases s.len() - i,
    {
        proof { lemma_rest(s@, i as int); }
        let c = s[i];
        if inside {
            inside = c != q;
        } else if c == q && occurs_after(s, i, q) {
            let ghost before = out@;
            push_all(&mut out, rep);
            inside = true;
            assert(out@ + quoted_pass(s@.subrange(i + 1, s.len() as int), q, rep@, inside)
                == before + quoted_pass(s@.subrange(i as int, s.len() as int), q, rep@, false));
        } else {
            out.push(c);
        }
        i += 1;
    }
    assert(out@ + Seq::<char>::empty() == out@);
    out
}

/// The normalized form of an exception message.
pub fn normalize_message_chars(m: &[char]) -> (r: Vec<char>)
    ensures
        r@ == normalize_message(m@),
{
    let a = replace_digit_runs(m);
    let b = replace_quoted(&a, '"', &['"', 'S', 'T', 'R', '"']);
    let c = replace_quoted(&b, '\'', &['\'', 'S', 'T', 'R', '\'']);
    if c.len() > 100 {
        slice_vec(&c, 0, 100)
    } else {
        c
    }
}

} // verus!

verus! {

// ---------------------------------------------------------------------------
// Recognizing exception headers and backtrace frames
// ---------------------------------------------------------------------------

pub open spec fn error_word() -> Seq<char> {
    seq!['E', 'r', 'r', 'o', 'r']
}

pub open spec fn exception_word() -> Seq<char> {
    seq!['E', 'x', 'c', 'e', 'p', 't', 'i', 'o', 'n']
}

/// A name that ends in `Error` or `Exception`, or holds `::` and one of them.
pub open spec fn is_exception_type(t: Seq<char>) -> bool {
    ends_with(t, error_word()) || ends_with(t, exception_word()) || (contains(t, seq![':', ':'])
        && (contains(t, error_word()) || contains(t, exception_word())))
}

/// The header form `<Type> (<message>):`.
pub open spec fn paren_header(line: Seq<char>) -> Option<(Seq<char>, Seq<char>)> {
    match index_of(line, seq![' ', '('], 0) {
        Some(pos) => {
            let t = trim(line.take(pos));
            if is_exception_type(t) {
                match index_of(line, seq![')', ':'], pos) {
                    Some(e) => Some((t, line.subrange(pos + 2, e))),
                    None => None,
                }
            } else {
                None
            }
        },
        None => None,
    }
}

/// The header form `<Type>: <message>`.
pub open spec fn colon_header(line: Seq<char>) -> Option<(Seq<char>, Seq<char>)> {
    match index_of(line, seq![':', ' '], 0) {
        Some(pos) => {
            let t = trim(line.take(pos));
            if is_exception_type(t) {
                Some((t, line.skip(pos + 2)))
            } else {
                None
            }
        },
        None => None,
    }
}

/// The exception type and message that a line opens, if it opens one.
pub open spec fn exception_header(line: Seq<char>) -> Option<(Seq<char>, Seq<char>)> {
    match paren_header(line) {
        Some(h) => Some(h),
        None => colon_header(line),
    }
}

/// A line that continues a backtrace.
pub open spec fn is_backtrace_line(line: Seq<char>) -> bool {
    let t = trim_start(line);
    starts_with(t, seq!['f', 'r', 'o', 'm', ' ']) || starts_with(t, seq!['/']) || starts_with(
        t,
        seq!['a', 'p', 'p', '/'],
    ) || starts_with(t, seq!['l', 'i', 'b', '/']) || starts_with(
        t,
        seq!['v', 'e', 'n', 'd', 'o', 'r', '/'],
    ) || (starts_with(line, seq![' ', ' ']) && contains(line, seq!['.', 'r', 'b', ':']))
}

/// `s` with every leading `from ` removed.
pub open spec fn strip_from(s: Seq<char>) -> Seq<char>
    decreases s.len(),
{
    if starts_with(s, seq!['f', 'r', 'o', 'm', ' ']) {
        strip_from(s.skip(5))
    } else {
        s
    }
}

/// The `path:line` that a backtrace frame starts with.
pub open spec fn backtrace_location(frame: Seq<char>) -> Option<(Seq<char>, nat)> {
    let c = trim(strip_from(frame));
    match index_of(c, seq![':'], 0) {
        Some(p) => match index_of(c, seq![':'], p + 1) {
            Some(e) => match parse_bounded(c.subrange(p + 1, e), usize::MAX as nat) {
                Some(n) => Some((c.take(p), n)),
                None => None,
            },
            None => None,
        },
        None => None,
    }
}

fn is_exception_type_exec(t: &[char]) -> (r: bool)
    ensures
        r == is_exception_type(t@),
{
    let err = ['E', 'r', 'r', 'o', 'r'];
    let exc = ['E', 'x', 'c', 'e', 'p', 't', 'i', 'o', 'n'];
    has_suffix(t, &err) || has_suffix(t, &exc) || (has(t, &[':', ':']) && (has(t, &err) || has(t, &exc)))
}

fn paren_header_exec(line: &[char]) -> (r: Option<(Vec<char>, Vec<char>)>)
    ensures
        match r {
            Some((t, m)) => paren_header(line@) == Some((t@, m@)),
            None => paren_header(line@) is None,
        },
{
    let pos = match find_in(line, &[' ', '('], 0) {
        Some(p) => p,
        None => return None,
    };
    let head = slice_vec(line, 0, pos);
    let t = trimmed(&head);
    if !is_exception_type_exec(&t) {
        return None;
    }
    let e = match find_in(line, &[')', ':'], pos) {
        Some(e) => e,
        None => return None,
    };
    assert(line@.subrange(pos as int, pos + 2) == seq![' ', '(']);
    assert(e != pos) by {
        if e == pos {
            assert(line@.subrange(e as int, e + 2)[0] == ')');
        }
    }
    assert(e != pos + 1) by {
        if e == pos + 1 {
            assert(line@.subrange(e as int, e + 2)[0] == ')');
            assert(line@[pos + 1] == '(');
        }
    }
    let m = slice_vec(line, pos + 2, e);
    Some((t, m))
}

fn colon_header_exec(line: &[char]) -> (r: Option<(Vec<char>, Vec<char>)>)
    ensures
        match r {
            Some((t, m)) => colon_header(line@) == Some((t@, m@)),
            None => colon_header(line@) is None,
        },
{
    let pat = [':', ' '];
    assert(pat@ == seq![':', ' ']);
    let found = find_in(line, &pat, 0);
    let pos = match found {
        Some(p) => p,
        None => return None,
    };
    assert(occurs_at(line@, pat@, pos as int));

    let head = slice_vec(line, 0, pos);
    let t = trimmed(&head);
    if !is_exception_type_exec(&t) {
        return None;
    }
    let n = line.len();
    let m = slice_vec(line, pos + 2, n);
    Some((t, m))
}

/// The exception type and message that `line` opens, if it opens one.
pub fn detect_exception_header(line: &[char]) -> (r: Option<(Vec<char>, Vec<char>)>)
    ensures
        match r {
            Some((t, m)) => exception_header(line@) == Some((t@, m@)),
            None => exception_header(line@) is None,
        },
{
    match paren_header_exec(line) {
        Some(h) => Some(h),
        None => colon_header_exec(line),
    }
}

/// Whether `line` continues a backtrace.
pub fn backtrace_line(line: &[char]) -> (r: bool)
    ensures
        r == is_backtrace_line(line@),
{
    let lo = trim_start_index(line);
    let t = slice_vec(line, lo, line.len());
    let from_kw = ['f', 'r', 'o', 'm', ' '];
    let root = ['/'];
    let app_dir = ['a', 'p', 'p', '/'];
    let lib_dir = ['l', 'i', 'b', '/'];
    let vendor_dir = ['v', 'e', 'n', 'd', 'o', 'r', '/'];
    let indent = [' ', ' '];
    let rb_loc = ['.', 'r', 'b', ':'];
    assert(from_kw@ == seq!['f', 'r', 'o', 'm', ' ']);
    assert(root@ == seq!['/']);
    assert(app_dir@ == seq!['a', 'p', 'p', '/']);
    assert(lib_dir@ == seq!['l', 'i', 'b', '/']);
    assert(vendor_dir@ == seq!['v', 'e', 'n', 'd', 'o', 'r', '/']);
    assert(indent@ == seq![' ', ' ']);
    assert(rb_loc@ == seq!['.', 'r', 'b', ':']);
    has_prefix(&t, &from_kw) || has_prefix(&t, &root) || has_prefix(&t, &app_dir) || has_prefix(&t, &lib_dir)
        || has_prefix(&t, &vendor_dir) || (has_prefix(line, &indent) && has(line, &rb_loc))
}

fn strip_from_index(frame: &[char]) -> (r: usize)
    ensures
        r <= frame@.len(),
        strip_from(frame@) == frame@.subrange(r as int, frame@.len() as int),
{
    let pat = ['f', 'r', 'o', 'm', ' '];
    assert(pat@ == seq!['f', 'r', 'o', 'm', ' ']);
    let mut lo: usize = 0;
    assert(frame@.subrange(0, frame@.len() as int) == frame@);
    while matches_at(frame, &pat, lo)
        invariant
            lo <= frame@.len(),
            pat@ == seq!['f', 'r', 'o', 'm', ' '],
            strip_from(frame@) == strip_from(frame@.subrange(lo as int, frame@.len() as int)),
        decreases frame.len() - lo,
    {
        let ghost cur = frame@.subrange(lo as int, frame@.len() as int);
        assert(cur.subrange(0, 5) == frame@.subrange(lo as int, lo + 5));
        assert(starts_with(cur, pat@));
        assert(cur.skip(5) == frame@.subrange(lo + 5, frame@.len() as int));
        lo = lo + 5;
    }
    let ghost cur = frame@.subrange(lo as int, frame@.len() as int);
    assert(!starts_with(cur, pat@)) by {
        if starts_with(cur, pat@) {
            assert(cur.subrange(0, 5) == frame@.subrange(lo as int, lo + 5));
        }
    }
    lo
}

/// The `path:line` location that a backtrace frame starts with.
pub fn parse_backtrace_location(frame: &[char]) -> (r: Option<(Vec<char>, usize)>)
    ensures
        match r {
            Some((p, n)) => backtrace_location(frame@) == Some((p@, n as nat)),
            None => backtrace_location(frame@) is None,
        },
{
    let lo = strip_from_index(frame);
    let rest = slice_vec(frame, lo, frame.len());
    let c = trimmed(&rest);
    let colon = [':'];
    assert(colon@ == seq![':']);
    let found = find_in(&c, &colon, 0);
    let p = match found {
        Some(p) => p,
        None => return None,
    };
    assert(occurs_at(c@, colon@, p as int));
    let n = c.len();
    let e = match find_in(&c, &colon, p + 1) {
        Some(e) => e,
        None => return None,
    };
    match parse_number(&c, p + 1, e, usize::MAX as u64) {
        Some(n) => {
            let path = slice_vec(&c, 0, p);
            Some((path, n as usize))
        },
        None => None,
    }
}

} // verus!

verus! {

// ---------------------------------------------------------------------------
// Severity
// ---------------------------------------------------------------------------

#[derive(Debug, Clone, Copy, PartialEq, Eq, Structural)]
pub enum ExceptionSeverity {
    Low,
    Medium,
    High,
    Critical,
}

/// The severity of an exception type, by a fixed taxonomy.
pub open spec fn severity_of(t: Seq<char>) -> ExceptionSeverity {
    if t == "NoMemoryError"@ || t == "SystemStackError"@ || t == "SignalException"@ {
        ExceptionSeverity::Critical
    } else if t == "NameError"@ || t == "NoMethodError"@ || t == "ArgumentError"@ || t == "TypeError"@
        || t == "ZeroDivisionError"@ || t == "SyntaxError"@ {
        ExceptionSeverity::High
    } else if t == "ActiveRecord::RecordNotFound"@ || t == "ActiveRecord::RecordInvalid"@
        || t == "ActionController::RoutingError"@ || t == "ActiveRecord::RecordNotUnique"@ {
        ExceptionSeverity::Medium
    } else {
        ExceptionSeverity::Low
    }
}

fn is_named(t: &[char], name: &str) -> (r: bool)
    ensures
        r == (t@ == name@),
{
    let n = chars_of(name);
    same_chars(t, &n)
}

fn severity_of_chars(t: &[char]) -> (r: ExceptionSeverity)
    ensures
        r == severity_of(t@),
{
    if is_named(t, "NoMemoryError") || is_named(t, "SystemStackError") || is_named(t, "SignalException") {
        ExceptionSeverity::Critical
    } else if is_named(t, "NameError") || is_named(t, "NoMethodError") || is_named(t, "ArgumentError")
        || is_named(t, "TypeError") || is_named(t, "ZeroDivisionError") || is_named(t, "SyntaxError") {
        ExceptionSeverity::High
    } else if is_named(t, "ActiveRecord::RecordNotFound") || is_named(t, "ActiveRecord::RecordInvalid")
        || is_named(t, "ActionController::RoutingError") || is_named(t, "ActiveRecord::RecordNotUnique") {
        ExceptionSeverity::Medium
    } else {
        ExceptionSeverity::Low
    }
}

impl ExceptionSeverity {
    pub fn from_exception_type(exc_type: &str) -> (r: ExceptionSeverity)
        ensures
            r == severity_of(exc_type@),
    {
        let t = chars_of(exc_type);
        severity_of_chars(&t)
    }

    pub fn icon(&self) -> (r: &'static str)
        ensures
            r@ == match *self {
                ExceptionSeverity::Critical => "✗"@,
                ExceptionSeverity::High => "⚠"@,
                ExceptionSeverity::Medium => "!"@,
                ExceptionSeverity::Low => "i"@,
            },
    {
        match self {
            ExceptionSeverity::Critical => "✗",
            ExceptionSeverity::High => "⚠",
            ExceptionSeverity::Medium => "!",
            ExceptionSeverity::Low => "i",
        }
    }
}

// ---------------------------------------------------------------------------
// Records, groups and counters
// ---------------------------------------------------------------------------

/// One exception with its backtrace. Times are in the caller's clock.
#[derive(Debug, Clone)]
pub struct Exception {
    pub exception_type: String,
    pub message: String,
    pub backtrace: Vec<String>,
    pub file_path: Option<String>,
    pub line_number: Option<usize>,
    pub timestamp: u64,
    pub context: Option<String>,
}

/// Exceptions of one type whose messages normalize alike.
#[derive(Debug, Clone)]
pub struct ExceptionGroup {
    pub fingerprint: String,
    pub exception_type: String,
    pub message_pattern: String,
    pub count: usize,
    pub first_seen: u64,
    pub last_seen: u64,
    pub sample_exception: Exception,
    /// The times of the most recent occurrences, oldest first, at most ten.
    pub occurrences: Vec<u64>,
}

#[derive(Debug, Clone)]
pub struct ExceptionStats {
    pub total_exceptions: usize,
    pub unique_exceptions: usize,
    pub critical_count: usize,
    pub high_count: usize,
    pub medium_count: usize,
    pub low_count: usize,
}

impl Default for ExceptionStats {
    fn default() -> (r: ExceptionStats)
        ensures
            r.total_exceptions == 0 && r.unique_exceptions == 0 && r.critical_count == 0
                && r.high_count == 0 && r.medium_count == 0 && r.low_count == 0,
    {
        ExceptionStats {
            total_exceptions: 0,
            unique_exceptions: 0,
            critical_count: 0,
            high_count: 0,
            medium_count: 0,
            low_count: 0,
        }
    }
}

/// The grouping key of an exception: its type, `:`, and its normalized message.
pub open spec fn exception_fingerprint(exc_type: Seq<char>, message: Seq<char>) -> Seq<char> {
    exc_type + seq![':'] + normalize_message(message)
}

pub const MAX_RECENT_EXCEPTIONS: usize = 100;

pub const MAX_GROUP_OCCURRENCES: usize = 10;

fn copy_strings(v: &Vec<String>) -> (r: Vec<String>)
    ensures
        r@ == v@,
{
    let mut r: Vec<String> = Vec::new();
    let mut i: usize = 0;
    while i < v.len()
        invariant
            i <= v@.len(),
            r@ == v@.take(i as int),
        decreases v.len() - i,
    {
        r.push(v[i].clone());
        i += 1;
        assert(r@ =~= v@.take(i as int));
    }
    assert(v@.take(v@.len() as int) == v@);
    r
}

fn copy_opt_string(o: &Option<String>) -> (r: Option<String>)
    ensures
        r == *o,
{
    match o {
        Some(s) => Some(s.clone()),
        None => None,
    }
}

impl Exception {
    /// A field-by-field copy.
    pub fn duplicate(&self) -> (r: Exception)
        ensures
            r.exception_type == self.exception_type,
            r.message == self.message,
            r.backtrace@ == self.backtrace@,
            r.file_path == self.file_path,
            r.line_number == self.line_number,
            r.timestamp == self.timestamp,
            r.context == self.context,
    {
        Exception {
            exception_type: self.exception_type.clone(),
            message: self.message.clone(),
            backtrace: copy_strings(&self.backtrace),
            file_path: copy_opt_string(&self.file_path),
            line_number: self.line_number,
            timestamp: self.timestamp,
            context: copy_opt_string(&self.context),
        }
    }
}

/// Two exceptions hold the same values.
pub open spec fn same_exception(a: Exception, b: Exception) -> bool {
    &&& a.exception_type == b.exception_type
    &&& a.message == b.message
    &&& a.backtrace@ == b.backtrace@
    &&& a.file_path == b.file_path
    &&& a.line_number == b.line_number
    &&& a.timestamp == b.timestamp
    &&& a.context == b.context
}

/// Two groups hold the same values.
pub open spec fn same_group(a: ExceptionGroup, b: ExceptionGroup) -> bool {
    &&& a.fingerprint == b.fingerprint
    &&& a.exception_type == b.exception_type
    &&& a.message_pattern == b.message_pattern
    &&& a.count == b.count
    &&& a.first_seen == b.first_seen
    &&& a.last_seen == b.last_seen
    &&& same_exception(a.sample_exception, b.sample_exception)
    &&& a.occurrences@ == b.occurrences@
}

impl ExceptionGroup {
    /// A field-by-field copy.
    pub fn duplicate(&self) -> (r: ExceptionGroup)
        ensures
            same_group(r, *self),
    {
        ExceptionGroup {
            fingerprint: self.fingerprint.clone(),
            exception_type: self.exception_type.clone(),
            message_pattern: self.message_pattern.clone(),
            count: self.count,
            first_seen: self.first_seen,
            last_seen: self.last_seen,
            sample_exception: self.sample_exception.duplicate(),
            occurrences: self.occurrences.clone(),
        }
    }
}

} // verus!

verus! {

/// Assembles exceptions from output lines and groups them.
///
/// Between lines it is either idle or collecting the backtrace of a pending
/// exception (`current`).
pub struct ExceptionTracker {
    /// The most recent finished exceptions, oldest first.
    pub exceptions: Vec<Exception>,
    /// One group per fingerprint, in order of creation.
    pub grouped: Vec<ExceptionGroup>,
    pub stats: ExceptionStats,
    /// The exception whose backtrace is being collected.
    pub current: Option<Exception>,
}

/// The counter of `s` for the severity `sev`.
pub open spec fn severity_count(s: ExceptionStats, sev: ExceptionSeverity) -> usize {
    match sev {
        ExceptionSeverity::Critical => s.critical_count,
        ExceptionSeverity::High => s.high_count,
        ExceptionSeverity::Medium => s.medium_count,
        ExceptionSeverity::Low => s.low_count,
    }
}

impl ExceptionTracker {
    /// The fingerprints of the groups are distinct, each group has between one
    /// and ten recent occurrences, and at most a hundred recent exceptions are kept.
    pub open spec fn wf(&self) -> bool {
        &&& self.exceptions@.len() <= MAX_RECENT_EXCEPTIONS
        &&& forall|g: int, h: int|
            0 <= g < self.grouped@.len() && 0 <= h < self.grouped@.len() && g != h
                ==> #[trigger] self.grouped@[g].fingerprint@ != #[trigger] self.grouped@[h].fingerprint@
        &&& forall|g: int|
            0 <= g < self.grouped@.len() ==> 1 <= (#[trigger] self.grouped@[g]).occurrences@.len()
                <= MAX_GROUP_OCCURRENCES
        &&& forall|g: int| 0 <= g < self.grouped@.len() ==> (#[trigger] self.grouped@[g]).count >= 1
        &&& counters_agree(self.stats, self.grouped@)
    }

    pub fn new() -> (r: ExceptionTracker)
        ensures
            r.wf(),
            r.grouped@.len() == 0,
            r.exceptions@.len() == 0,
            r.current is None,
            r.stats.total_exceptions == 0 && r.stats.unique_exceptions == 0 && r.stats.critical_count == 0
                && r.stats.high_count == 0 && r.stats.medium_count == 0 && r.stats.low_count == 0,
    {
        ExceptionTracker {
            exceptions: Vec::new(),
            grouped: Vec::new(),
            stats: ExceptionStats::default(),
            current: None,
        }
    }

    fn find_group(&self, fp: &[char]) -> (r: Option<usize>)
        ensures
            match r {
                Some(k) => k < self.grouped@.len() && self.grouped@[k as int].fingerprint@ == fp@,
                None => forall|g: int| 0 <= g < self.grouped@.len() ==> #[trigger] self.grouped@[g].fingerprint@ != fp@,
            },
    {
        let mut g: usize = 0;
        while g < self.grouped.len()
            invariant
                g <= self.grouped@.len(),
                forall|h: int| 0 <= h < g ==> #[trigger] self.grouped@[h].fingerprint@ != fp@,
            decreases self.grouped.len() - g,
        {
            let f = chars_of(self.grouped[g].fingerprint.as_str());
            if same_chars(&f, fp) {
                return Some(g);
            }
            g += 1;
        }
        None
    }

    /// Counts a finished exception, files it in its group and in the recent list.
    fn record(&mut self, e: Exception, now: u64)
        requires
            old(self).wf(),
            old(self).stats.total_exceptions < usize::MAX,
        ensures
            final(self).wf(),
            final(self).current == old(self).current,
            record_post(*old(self), *final(self), e, now),
    {
        let tc = chars_of(e.exception_type.as_str());
        let mc = chars_of(e.message.as_str());
        let pattern = normalize_message_chars(&mc);
        let mut fp = tc.clone();
        assert(fp@ == tc@);
        fp.push(':');
        push_all(&mut fp, &pattern);
        assert(fp@ == exception_fingerprint(e.exception_type@, e.message@));

        self.stats.total_exceptions = self.stats.total_exceptions + 1;
        match severity_of_chars(&tc) {
            ExceptionSeverity::Critical => {
                self.stats.critical_count = self.stats.critical_count + 1;
            },
            ExceptionSeverity::High => {
                self.stats.high_count = self.stats.high_count + 1;
            },
            ExceptionSeverity::Medium => {
                self.stats.medium_count = self.stats.medium_count + 1;
            },
            ExceptionSeverity::Low => {
                self.stats.low_count = self.stats.low_count + 1;
            },
        }

        let ghost groups_before = self.grouped@;
        match self.find_group(&fp) {
            Some(k) => {
                proof {
                    lemma_count_le_sum(groups_before, k as int);
                }
                let ghost old_g = groups_before[k as int];
                let mut g = self.grouped.remove(k);
                g.count = g.count + 1;
                g.last_seen = now;
                g.occurrences.push(now);
                if g.occurrences.len() > MAX_GROUP_OCCURRENCES {
                    g.occurrences.remove(0);
                }
                let ghost new_g = g;
                assert(g.occurrences@ =~= next_occurrences(old_g.occurrences@, now));
                self.grouped.insert(k, g);
                assert(self.grouped@ =~= groups_before.update(k as int, new_g));
                proof {
                    lemma_sum_update(groups_before, k as int, new_g);
                }
                assert forall|a: int, b: int|
                    0 <= a < self.grouped@.len() && 0 <= b < self.grouped@.len() && a != b
                        implies #[trigger] self.grouped@[a].fingerprint@ != #[trigger] self.grouped@[b].fingerprint@ by {
                    assert(self.grouped@[a].fingerprint == groups_before[a].fingerprint);
                    assert(self.grouped@[b].fingerprint == groups_before[b].fingerprint);
                }
                assert forall|h: int| 0 <= h < self.grouped@.len() && h != k
                    implies #[trigger] self.grouped@[h] == groups_before[h] by {}
                assert(groups_before[k as int].fingerprint@ == fp@);
                assert(group_index(groups_before, fp@) == Some(k as int)) by {
                    let c = choose|c: int| 0 <= c < groups_before.len() && #[trigger] groups_before[c].fingerprint@ == fp@;
                    if c != k {
                        assert(groups_before[c].fingerprint@ != groups_before[k as int].fingerprint@);
                    }
                }
            },
            None => {
                self.stats.unique_exceptions = self.stats.unique_exceptions + 1;
                let mut occ: Vec<u64> = Vec::new();
                occ.push(now);
                let g = ExceptionGroup {
                    fingerprint: string_of(&fp),
                    exception_type: e.exception_type.clone(),
                    message_pattern: string_of(&pattern),
                    count: 1,
                    first_seen: now,
                    last_seen: now,
                    sample_exception: e.duplicate(),
                    occurrences: occ,
                };
                self.grouped.push(g);
                assert(self.grouped@.drop_last() == groups_before);
                assert(group_count_sum(self.grouped@) == group_count_sum(groups_before) + 1);
                assert(group_index(groups_before, fp@) is None);
            },
        }
        let ghost ex_before = self.exceptions@;
        self.exceptions.push(e);
        if self.exceptions.len() > MAX_RECENT_EXCEPTIONS {
            self.exceptions.remove(0);
            assert(self.exceptions@.drop_last() =~= ex_before.skip(1));
        } else {
            assert(self.exceptions@.drop_last() =~= ex_before.skip(0));
        }
    }
}

/// What filing the finished exception `e` at time `now` does: the counters
/// for its total and severity grow by one, its group (by fingerprint) counts
/// it or is created for it, and it becomes the newest of the recent exceptions.
pub open spec fn record_post(before: ExceptionTracker, after: ExceptionTracker, e: Exception, now: u64) -> bool {
    let fp = exception_fingerprint(e.exception_type@, e.message@);
    let sev = severity_of(e.exception_type@);
    &&& after.stats.total_exceptions == before.stats.total_exceptions + 1
    &&& severity_count(after.stats, sev) == severity_count(before.stats, sev) + 1
    &&& forall|s: ExceptionSeverity| s != sev ==> severity_count(after.stats, s) == severity_count(before.stats, s)
    &&& after.exceptions@.last() == e
    &&& after.exceptions@.len() == if before.exceptions@.len() < MAX_RECENT_EXCEPTIONS {
        before.exceptions@.len() + 1
    } else {
        MAX_RECENT_EXCEPTIONS as nat
    }
    &&& after.exceptions@.drop_last() == before.exceptions@.skip(
        before.exceptions@.len() + 1 - after.exceptions@.len(),
    )
    &&& match group_index(before.grouped@, fp) {
        Some(k) => {
            &&& after.grouped@.len() == before.grouped@.len()
            &&& after.stats.unique_exceptions == before.stats.unique_exceptions
            &&& after.grouped@[k].count == before.grouped@[k].count + 1
            &&& after.grouped@[k].last_seen == now
            &&& after.grouped@[k].first_seen == before.grouped@[k].first_seen
            &&& after.grouped@[k].fingerprint == before.grouped@[k].fingerprint
            &&& after.grouped@[k].exception_type == before.grouped@[k].exception_type
            &&& after.grouped@[k].message_pattern == before.grouped@[k].message_pattern
            &&& after.grouped@[k].sample_exception == before.grouped@[k].sample_exception
            &&& after.grouped@[k].occurrences@ == next_occurrences(before.grouped@[k].occurrences@, now)
            &&& forall|h: int| 0 <= h < after.grouped@.len() && h != k ==> #[trigger] after.grouped@[h] == before.grouped@[h]
        },
        None => {
            let g = after.grouped@.last();
            &&& after.grouped@.drop_last() == before.grouped@
            &&& after.stats.unique_exceptions == before.stats.unique_exceptions + 1
            &&& g.fingerprint@ == fp
            &&& g.exception_type@ == e.exception_type@
            &&& g.message_pattern@ == normalize_message(e.message@)
            &&& g.count == 1
            &&& g.first_seen == now && g.last_seen == now
            &&& g.occurrences@ == seq![now]
            &&& same_exception(g.sample_exception, e)
        },
    }
}

/// The recent occurrence times after one more at `now`: the oldest leaves
/// past ten.
pub open spec fn next_occurrences(occ: Seq<u64>, now: u64) -> Seq<u64> {
    if occ.len() + 1 > MAX_GROUP_OCCURRENCES {
        occ.push(now).drop_first()
    } else {
        occ.push(now)
    }
}

/// The occurrences counted by all groups.
pub open spec fn group_count_sum(gs: Seq<ExceptionGroup>) -> nat
    decreases gs.len(),
{
    if gs.len() == 0 {
        0
    } else {
        group_count_sum(gs.drop_last()) + gs.last().count as nat
    }
}

/// The counters agree with each other and with the groups: the total is the
/// sum of the severity counts and of the group counts, and there is one
/// distinct exception per group.
pub open spec fn counters_agree(s: ExceptionStats, gs: Seq<ExceptionGroup>) -> bool {
    &&& s.total_exceptions == s.critical_count + s.high_count + s.medium_count + s.low_count
    &&& s.unique_exceptions == gs.len()
    &&& s.total_exceptions == group_count_sum(gs)
    &&& gs.len() <= s.total_exceptions
}

proof fn lemma_count_le_sum(gs: Seq<ExceptionGroup>, k: int)
    requires
        0 <= k < gs.len(),
    ensures
        gs[k].count <= group_count_sum(gs),
    decreases gs.len(),
{
    if k < gs.len() - 1 {
        assert(gs.drop_last()[k] == gs[k]);
        lemma_count_le_sum(gs.drop_last(), k);
    }
}

proof fn lemma_sum_update(gs: Seq<ExceptionGroup>, k: int, g: ExceptionGroup)
    requires
        0 <= k < gs.len(),
    ensures
        group_count_sum(gs.update(k, g)) + gs[k].count == group_count_sum(gs) + g.count,
    decreases gs.len(),
{
    let u = gs.update(k, g);
    if k == gs.len() - 1 {
        assert(u.drop_last() =~= gs.drop_last());
    } else {
        assert(u.drop_last() =~= gs.drop_last().update(k, g));
        assert(gs.drop_last()[k] == gs[k]);
        lemma_sum_update(gs.drop_last(), k, g);
    }
}

/// The index of the group with fingerprint `fp`, if there is one.
pub open spec fn group_index(groups: Seq<ExceptionGroup>, fp: Seq<char>) -> Option<int> {
    if exists|k: int| 0 <= k < groups.len() && #[trigger] groups[k].fingerprint@ == fp {
        Some(choose|k: int| 0 <= k < groups.len() && #[trigger] groups[k].fingerprint@ == fp)
    } else {
        None
    }
}

} // verus!

verus! {

/// `cur` is what the line `line` opens at time `now`: a fresh exception with
/// the header's type and message, or nothing.
pub open spec fn opens(cur: Option<Exception>, line: Seq<char>, now: u64) -> bool {
    match exception_header(line) {
        Some((t, m)) => match cur {
            Some(e) => {
                &&& e.exception_type@ == t
                &&& e.message@ == m
                &&& e.backtrace@.len() == 0
                &&& e.file_path is None
                &&& e.line_number is None
                &&& e.timestamp == now
                &&& e.context is None
            },
            None => false,
        },
        None => cur is None,
    }
}

/// `q` is `p` with the backtrace frame `line` appended; the first frame that
/// names a `path:line` gives the exception its location.
pub open spec fn adds_frame(p: Exception, q: Exception, line: Seq<char>) -> bool {
    let frame = trim(line);
    &&& q.backtrace@.len() == p.backtrace@.len() + 1
    &&& q.backtrace@.drop_last() == p.backtrace@
    &&& q.backtrace@.last()@ == frame
    &&& q.exception_type == p.exception_type
    &&& q.message == p.message
    &&& q.timestamp == p.timestamp
    &&& q.context == p.context
    &&& if p.file_path is None {
        match backtrace_location(frame) {
            Some((f, n)) => q.file_path matches Some(s) && s@ == f && q.line_number == Some(n as usize),
            None => q.file_path == p.file_path && q.line_number == p.line_number,
        }
    } else {
        q.file_path == p.file_path && q.line_number == p.line_number
    }
}

/// The records, groups and counters of two tracker states agree.
pub open spec fn same_records(a: ExceptionTracker, b: ExceptionTracker) -> bool {
    &&& a.exceptions@ == b.exceptions@
    &&& a.grouped@ == b.grouped@
    &&& a.stats == b.stats
}

impl ExceptionTracker {
    fn add_frame(e: &mut Exception, line: &[char])
        ensures
            adds_frame(*old(e), *final(e), line@),
    {
        let frame = trimmed(line);
        let ghost before = e.backtrace@;
        e.backtrace.push(string_of(&frame));
        assert(e.backtrace@.drop_last() == before);
        if e.file_path.is_none() {
            match parse_backtrace_location(&frame) {
                Some((f, n)) => {
                    e.file_path = Some(string_of(&f));
                    e.line_number = Some(n);
                },
                None => {},
            }
        }
    }

    fn open_exception(line: &[char], now: u64) -> (r: Option<Exception>)
        ensures
            opens(r, line@, now),
    {
        match detect_exception_header(line) {
            Some((t, m)) => Some(
                Exception {
                    exception_type: string_of(&t),
                    message: string_of(&m),
                    backtrace: Vec::new(),
                    file_path: None,
                    line_number: None,
                    timestamp: now,
                    context: None,
                },
            ),
            None => None,
        }
    }

    /// Feeds one output line, seen at time `now`.
    ///
    /// While an exception is pending, a backtrace frame is added to it; any
    /// other line files it and is then read as a possible new header.
    pub fn parse_line(&mut self, line: &str, now: u64)
        requires
            old(self).wf(),
            old(self).stats.total_exceptions < usize::MAX,
        ensures
            final(self).wf(),
            match old(self).current {
                Some(p) => if is_backtrace_line(line@) {
                    &&& same_records(*old(self), *final(self))
                    &&& final(self).current matches Some(q) && adds_frame(p, q, line@)
                } else {
                    &&& record_post(*old(self), *final(self), p, now)
                    &&& opens(final(self).current, line@, now)
                },
                None => {
                    &&& same_records(*old(self), *final(self))
                    &&& opens(final(self).current, line@, now)
                },
            },
    {
        let l = chars_of(line);
        let pending = self.current.take();
        match pending {
            Some(mut p) => {
                if backtrace_line(&l) {
                    Self::add_frame(&mut p, &l);
                    self.current = Some(p);
                    return;
                }
                self.record(p, now);
            },
            None => {},
        }
        self.current = Self::open_exception(&l, now);
    }
}

} // verus!

verus! {

/// `r` holds the groups `gs`, each once, by occurrence count, largest first.
pub open spec fn ranked_groups(gs: Seq<ExceptionGroup>, r: Seq<ExceptionGroup>) -> bool {
    &&& r.len() == gs.len()
    &&& exists|perm: Seq<usize>|
        is_permutation(perm, gs.len()) && forall|k: int| 0 <= k < r.len() ==> same_group(#[trigger] r[k], gs[perm[k] as int])
    &&& forall|k: int, l: int| 0 <= k < l < r.len() ==> #[trigger] r[k].count >= #[trigger] r[l].count
}

/// The groups of `gs` whose type is of critical severity, in order.
pub open spec fn critical_groups(gs: Seq<ExceptionGroup>) -> Seq<ExceptionGroup>
    decreases gs.len(),
{
    if gs.len() == 0 {
        gs
    } else {
        let s = critical_groups(gs.drop_last());
        if severity_of(gs.last().exception_type@) == ExceptionSeverity::Critical {
            s.push(gs.last())
        } else {
            s
        }
    }
}

/// The occurrences in `occ` less than a minute before `now`.
pub open spec fn recent_occurrences(occ: Seq<u64>, now: u64) -> nat
    decreases occ.len(),
{
    if occ.len() == 0 {
        0
    } else {
        recent_occurrences(occ.drop_last(), now) + if occ.last() > now || now - occ.last() < 60 {
            1nat
        } else {
            0nat
        }
    }
}

/// The occurrences of all groups less than a minute before `now`.
pub open spec fn recent_in_groups(gs: Seq<ExceptionGroup>, now: u64) -> nat
    decreases gs.len(),
{
    if gs.len() == 0 {
        0
    } else {
        recent_in_groups(gs.drop_last(), now) + recent_occurrences(gs.last().occurrences@, now)
    }
}

impl ExceptionTracker {
    /// Up to `limit` recent exceptions, newest first.
    pub fn get_recent_exceptions(&self, limit: usize) -> (r: Vec<Exception>)
        ensures
            r@.len() == if limit < self.exceptions@.len() { limit as int } else { self.exceptions@.len() as int },
            forall|k: int| 0 <= k < r@.len() ==> same_exception(#[trigger] r@[k],
                self.exceptions@[self.exceptions@.len() - 1 - k]),
    {
        let n = self.exceptions.len();
        let mut r: Vec<Exception> = Vec::new();
        let mut k: usize = 0;
        while k < n && k < limit
            invariant
                n == self.exceptions@.len(),
                k <= n,
                k <= limit,
                r@.len() == k,
                forall|j: int| 0 <= j < k ==> same_exception(#[trigger] r@[j], self.exceptions@[n - 1 - j]),
            decreases n - k,
        {
            r.push(self.exceptions[n - 1 - k].duplicate());
            k += 1;
        }
        r
    }

    /// All groups, by occurrence count, most frequent first.
    pub fn get_grouped_exceptions(&self) -> (r: Vec<ExceptionGroup>)
        ensures
            ranked_groups(self.grouped@, r@),
    {
        let mut keys: Vec<u64> = Vec::new();
        let mut i: usize = 0;
        while i < self.grouped.len()
            invariant
                i <= self.grouped@.len(),
                keys@.len() == i,
                forall|j: int| 0 <= j < i ==> keys@[j] == self.grouped@[j].count as u64,
            decreases self.grouped.len() - i,
        {
            keys.push(self.grouped[i].count as u64);
            i += 1;
        }
        let perm = rank_desc(&keys);
        let mut r: Vec<ExceptionGroup> = Vec::new();
        let mut k: usize = 0;
        while k < perm.len()
            invariant
                k <= perm@.len(),
                is_permutation(perm@, self.grouped@.len()),
                ranked_by(perm@, keys@),
                keys@.len() == self.grouped@.len(),
                forall|j: int| 0 <= j < keys@.len() ==> keys@[j] == self.grouped@[j].count as u64,
                r@.len() == k,
                forall|j: int| 0 <= j < k ==> same_group(#[trigger] r@[j], self.grouped@[perm@[j] as int]),
            decreases perm.len() - k,
        {
            r.push(self.grouped[perm[k]].duplicate());
            k += 1;
        }
        assert forall|k: int, l: int| 0 <= k < l < r@.len() implies #[trigger] r@[k].count >= #[trigger] r@[l].count by {
            assert(keys@[perm@[k] as int] >= keys@[perm@[l] as int]);
        }
        r
    }

    /// The counters.
    pub fn get_stats(&self) -> (r: ExceptionStats)
        ensures
            r == self.stats,
    {
        ExceptionStats {
            total_exceptions: self.stats.total_exceptions,
            unique_exceptions: self.stats.unique_exceptions,
            critical_count: self.stats.critical_count,
            high_count: self.stats.high_count,
            medium_count: self.stats.medium_count,
            low_count: self.stats.low_count,
        }
    }

    /// The `limit` most frequent groups.
    pub fn get_top_exceptions(&self, limit: usize) -> (r: Vec<ExceptionGroup>)
        ensures
            exists|all: Seq<ExceptionGroup>|
                ranked_groups(self.grouped@, all) && r@ == all.take(
                    if limit < all.len() { limit as int } else { all.len() as int },
                ),
    {
        let mut all = self.get_grouped_exceptions();
        let ghost full = all@;
        if limit < all.len() {
            all.truncate(limit);
        }
        assert(all@ == full.take(if limit < full.len() { limit as int } else { full.len() as int }));
        all
    }

    /// The groups whose type is of critical severity, most frequent first.
    pub fn get_critical_exceptions(&self) -> (r: Vec<ExceptionGroup>)
        ensures
            exists|all: Seq<ExceptionGroup>|
                ranked_groups(self.grouped@, all) && r@.len() == critical_groups(all).len() && forall|k: int|
                    0 <= k < r@.len() ==> same_group(#[trigger] r@[k], critical_groups(all)[k]),
    {
        let all = self.get_grouped_exceptions();
        let mut r: Vec<ExceptionGroup> = Vec::new();
        let mut i: usize = 0;
        while i < all.len()
            invariant
                i <= all@.len(),
                r@.len() == critical_groups(all@.take(i as int)).len(),
                forall|k: int| 0 <= k < r@.len() ==> same_group(#[trigger] r@[k], critical_groups(all@.take(i as int))[k]),
            decreases all.len() - i,
        {
            let g = &all[i];
            assert(all@.take(i + 1).drop_last() == all@.take(i as int));
            let t = chars_of(g.exception_type.as_str());
            if severity_of_chars(&t) == ExceptionSeverity::Critical {
                r.push(g.duplicate());
            }
            i += 1;
        }
        assert(all@.take(all@.len() as int) == all@);
        r
    }
}

} // verus!

verus! {

impl ExceptionTracker {
    /// How many recorded occurrences, over all groups, are less than a minute
    /// older than `now`, capped at the largest `u64`.
    pub fn get_exception_rate(&self, now: u64) -> (r: u64)
        ensures
            r as nat == if recent_in_groups(self.grouped@, now) <= u64::MAX {
                recent_in_groups(self.grouped@, now)
            } else {
                u64::MAX as nat
            },
    {
        let mut acc: u64 = 0;
        let mut g: usize = 0;
        while g < self.grouped.len()
            invariant
                g <= self.grouped@.len(),
                acc as nat == if recent_in_groups(self.grouped@.take(g as int), now) <= u64::MAX {
                    recent_in_groups(self.grouped@.take(g as int), now)
                } else {
                    u64::MAX as nat
                },
            decreases self.grouped.len() - g,
        {
            let occ = &self.grouped[g].occurrences;
            let mut n: u64 = 0;
            let mut i: usize = 0;
            while i < occ.len()
                invariant
                    i <= occ@.len(),
                    n as nat == recent_occurrences(occ@.take(i as int), now),
                    n <= i,
                decreases occ.len() - i,
            {
                assert(occ@.take(i + 1).drop_last() == occ@.take(i as int));
                let t = occ[i];
                if t > now || now - t < 60 {
                    n += 1;
                }
                i += 1;
            }
            assert(occ@.take(occ@.len() as int) == occ@);
            assert(self.grouped@.take(g + 1).drop_last() == self.grouped@.take(g as int));
            acc = acc.saturating_add(n);
            g += 1;
        }
        assert(self.grouped@.take(self.grouped@.len() as int) == self.grouped@);
        acc
    }

    /// Forgets all exceptions, groups and counters.
    pub fn clear_stats(&mut self)
        requires
            old(self).wf(),
        ensures
            final(self).wf(),
            final(self).exceptions@.len() == 0,
            final(self).grouped@.len() == 0,
            final(self).stats.total_exceptions == 0 && final(self).stats.unique_exceptions == 0
                && final(self).stats.critical_count == 0 && final(self).stats.high_count == 0
                && final(self).stats.medium_count == 0 && final(self).stats.low_count == 0,
            final(self).current == old(self).current,
    {
        self.exceptions.clear();
        self.grouped.clear();
        self.stats = ExceptionStats::default();
    }
}

proof fn lemma_digit_runs_split(p: Seq<char>, d: Seq<char>, q: Seq<char>, skipping: bool)
    requires
        d.len() > 0,
        all_digits(d),
        q.len() == 0 || !is_digit(q[0]),
        p.len() > 0 ==> !is_digit(p.last()),
        p.len() == 0 ==> !skipping,
    ensures
        digit_runs_pass(p + d + q, skipping) == digit_runs_pass(p, skipping) + seq!['N'] + digit_runs_pass(q, false),
    decreases p.len(),
{
    if p.len() == 0 {
        assert(p + d + q == d + q);
        lemma_digits_vanish(d, q);
        assert(digit_runs_pass(d + q, false) == seq!['N'] + digit_runs_pass((d + q).drop_first(), true));
        assert((d + q).drop_first() == d.drop_first() + q);
    } else {
        let rest = p.drop_first();
        assert((p + d + q).drop_first() == rest + d + q);
        assert((p + d + q)[0] == p[0]);
        if rest.len() == 0 {
            assert(p.last() == p[0]);
            lemma_digit_runs_split(rest, d, q, false);
        } else {
            assert(rest.last() == p.last());
            lemma_digit_runs_split(rest, d, q, is_digit(p[0]));
            lemma_digit_runs_split(rest, d, q, false);
            lemma_digit_runs_split(rest, d, q, true);
        }
    }
}

proof fn lemma_digits_vanish(d: Seq<char>, q: Seq<char>)
    requires
        all_digits(d),
        q.len() == 0 || !is_digit(q[0]),
    ensures
        digit_runs_pass(d + q, true) == digit_runs_pass(q, false),
    decreases d.len(),
{
    if d.len() > 0 {
        assert((d + q).drop_first() == d.drop_first() + q);
        assert((d + q)[0] == d[0]);
        assert(all_digits(d.drop_first()));
        lemma_digits_vanish(d.drop_first(), q);
    } else {
        assert(d + q == q);
    }
    if q.len() == 0 {
        assert(digit_runs_pass(q, true) == q);
    } else {
        assert(digit_runs_pass(q, true) == digit_runs_pass(q, false));
    }
}

/// Two messages that differ only in one embedded number normalize alike.
pub proof fn messages_differing_in_a_number(
    t: Seq<char>,
    p: Seq<char>,
    d1: Seq<char>,
    d2: Seq<char>,
    q: Seq<char>,
)
    requires
        d1.len() > 0,
        d2.len() > 0,
        all_digits(d1),
        all_digits(d2),
        p.len() > 0 ==> !is_digit(p.last()),
        q.len() > 0 ==> !is_digit(q[0]),
    ensures
        normalize_message(p + d1 + q) == normalize_message(p + d2 + q),
        exception_fingerprint(t, p + d1 + q) == exception_fingerprint(t, p + d2 + q),
{
    lemma_digit_runs_split(p, d1, q, false);
    lemma_digit_runs_split(p, d2, q, false);
}

} // verus!
