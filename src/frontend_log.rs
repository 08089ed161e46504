//! Classifier for frontend dev-server output. Durations are in microseconds.
use vstd::prelude::*;
use crate::text::{
    all_digits, char_is_digit, chars_of, contains, digits_value, ends_with, find_in, has, has_suffix, index_of,
    is_digit, parse_bounded, parse_number, slice_vec, string_of,
};
use crate::testrun::millionths;

verus! {

#[derive(Debug, Clone)]
pub enum FrontendLogEvent {
    ServerStart { port: u16 },
    CompileStart,
    CompileSuccess { duration_us: u64 },
    CompileError { message: String },
    HotModuleReplacement { file: String },
    ApiRequest { method: String, path: String, status: Option<u16> },
    BuildWarning { message: String },
    Error { message: String },
}

/// The index of the first non-digit at or after `i`, if any.
pub open spec fn first_non_digit(s: Seq<char>, i: int) -> Option<int>
    decreases s.len() - i,
{
    if i < 0 || i >= s.len() {
        None
    } else if !is_digit(s[i]) {
        Some(i)
    } else {
        first_non_digit(s, i + 1)
    }
}

/// The port after `key`: the digits up to the first non-digit, when there
/// is one (`Some(None)` when they do not make a port), else no answer.
pub open spec fn port_after(s: Seq<char>, key: Seq<char>) -> Option<Option<nat>> {
    match index_of(s, key, 0) {
        Some(p) => {
            let a = p + key.len();
            match first_non_digit(s, a) {
                Some(e) => Some(parse_bounded(s.subrange(a, e), 65535)),
                None => None,
            }
        },
        None => None,
    }
}

/// The port of `localhost:<port>`, else of `port <port>`.
pub open spec fn port_of_line(s: Seq<char>) -> Option<nat> {
    match port_after(s, "localhost:"@) {
        Some(r) => r,
        None => match port_after(s, "port "@) {
            Some(r) => r,
            None => None,
        },
    }
}

pub open spec fn is_num_char(c: char) -> bool {
    is_digit(c) || c == '.'
}

/// The last index before `i` of a character that is neither digit nor `.`.
pub open spec fn last_non_num(s: Seq<char>, i: int) -> Option<int>
    decreases i,
{
    if i <= 0 || i > s.len() {
        None
    } else if !is_num_char(s[i - 1]) {
        Some(i - 1)
    } else {
        last_non_num(s, i - 1)
    }
}

/// A number of digits with at most one `.`, and a digit somewhere, in
/// millionths of its unit.
pub open spec fn decimal_millionths(t: Seq<char>) -> Option<nat> {
    match index_of(t, seq!['.'], 0) {
        None => if t.len() > 0 && all_digits(t) {
            Some(digits_value(t) * 1_000_000)
        } else {
            None
        },
        Some(p) => {
            let ip = t.take(p);
            let fp = t.skip(p + 1);
            if all_digits(ip) && all_digits(fp) && (ip.len() > 0 || fp.len() > 0) {
                Some(digits_value(ip) * 1_000_000 + millionths(fp))
            } else {
                None
            }
        },
    }
}

/// The duration written before the first `ms` (in milliseconds) or else
/// before the first `s ` (in seconds), in microseconds.
pub open spec fn build_duration(s: Seq<char>) -> Option<nat> {
    let ms = match index_of(s, "ms"@, 0) {
        Some(pos) => match last_non_num(s, pos) {
            Some(k) => Some(
                match decimal_millionths(s.subrange(k + 1, pos)) {
                    Some(v) => Some(v / 1000),
                    None => None,
                },
            ),
            None => None,
        },
        None => None,
    };
    match ms {
        Some(r) => r,
        None => match index_of(s, "s "@, 0) {
            Some(pos) => match last_non_num(s, pos) {
                Some(k) => decimal_millionths(s.subrange(k + 1, pos)),
                None => None,
            },
            None => None,
        },
    }
}

/// A source file name, by its extension.
pub open spec fn is_source_file(w: Seq<char>) -> bool {
    ends_with(w, ".ts"@) || ends_with(w, ".tsx"@) || ends_with(w, ".js"@) || ends_with(w, ".jsx"@) || ends_with(
        w,
        ".vue"@,
    ) || ends_with(w, ".svelte"@)
}

/// The first whitespace-separated word from `i` that names a source file.
pub open spec fn source_file_from(s: Seq<char>, i: int) -> Option<Seq<char>>
    decreases s.len() - i,
{
    let a = crate::parser::space_end(s, i);
    if i < 0 || a >= s.len() {
        None
    } else {
        let e = crate::parser::run_end(s, a, false);
        if e <= i || e > s.len() {
            None
        } else if is_source_file(s.subrange(a, e)) {
            Some(s.subrange(a, e))
        } else {
            source_file_from(s, e)
        }
    }
}

pub open spec fn has_any(s: Seq<char>, a: &str, b: &str) -> bool {
    contains(s, a@) || contains(s, b@)
}

} // verus!

verus! {

fn port_after_exec(s: &[char], key: &str) -> (r: Option<Option<u16>>)
    ensures
        match r {
            Some(Some(p)) => port_after(s@, key@) == Some(Some(p as nat)),
            Some(None) => port_after(s@, key@) == Some(None::<nat>),
            None => port_after(s@, key@) is None,
        },
{
    let k = chars_of(key);
    proof { crate::text::lemma_slice_len_fits(s); }
    let p = match find_in(s, &k, 0) {
        Some(p) => p,
        None => return None,
    };
    let a = p + k.len();
    let mut e: usize = a;
    while e < s.len() && char_is_digit(s[e])
        invariant
            a <= e <= s@.len(),
            first_non_digit(s@, a as int) == first_non_digit(s@, e as int),
        decreases s.len() - e,
    {
        e += 1;
    }
    if e >= s.len() {
        return None;
    }
    match parse_number(s, a, e, 65535) {
        Some(v) => Some(Some(v as u16)),
        None => Some(None),
    }
}

fn port_of_line_exec(s: &[char]) -> (r: Option<u16>)
    ensures
        match r {
            Some(p) => port_of_line(s@) == Some(p as nat),
            None => port_of_line(s@) is None,
        },
{
    match port_after_exec(s, "localhost:") {
        Some(r) => r,
        None => match port_after_exec(s, "port ") {
            Some(r) => r,
            None => None,
        },
    }
}

fn last_non_num_exec(s: &[char], i: usize) -> (r: Option<usize>)
    requires
        i <= s@.len(),
    ensures
        match r {
            Some(k) => last_non_num(s@, i as int) == Some(k as int) && k < i,
            None => last_non_num(s@, i as int) is None,
        },
    decreases i,
{
    if i == 0 {
        None
    } else if !(char_is_digit(s[i - 1]) || s[i - 1] == '.') {
        Some(i - 1)
    } else {
        last_non_num_exec(s, i - 1)
    }
}

fn all_digits_exec(s: &[char], lo: usize, hi: usize) -> (r: bool)
    requires
        lo <= hi <= s@.len(),
    ensures
        r == all_digits(s@.subrange(lo as int, hi as int)),
{
    let mut i: usize = lo;
    while i < hi
        invariant
            lo <= i <= hi <= s@.len(),
            forall|j: int| lo <= j < i ==> is_digit(#[trigger] s@[j]),
        decreases hi - i,
    {
        if !char_is_digit(s[i]) {
            assert(s@.subrange(lo as int, hi as int)[i - lo] == s@[i as int]);
            return false;
        }
        i += 1;
    }
    assert forall|j: int| 0 <= j < s@.subrange(lo as int, hi as int).len() implies is_digit(
        #[trigger] s@.subrange(lo as int, hi as int)[j],
    ) by {
        assert(s@.subrange(lo as int, hi as int)[j] == s@[lo + j]);
    }
    true
}

pub(crate) fn decimal_millionths_exec(s: &[char], lo: usize, hi: usize) -> (r: Option<u64>)
    requires
        lo <= hi <= s@.len(),
    ensures
        match r {
            Some(v) => decimal_millionths(s@.subrange(lo as int, hi as int)) == Some(v as nat),
            None => decimal_millionths(s@.subrange(lo as int, hi as int)) is None || decimal_millionths(
                s@.subrange(lo as int, hi as int),
            )->0 > u64::MAX,
        },
{
    let t = slice_vec(s, lo, hi);
    let n = t.len();
    assert(t@.subrange(0, n as int) == t@);
    let dot = ['.'];
    assert(dot@ == seq!['.']);
    let (ip_end, fp_start) = match find_in(&t, &dot, 0) {
        Some(p) => (p, p + 1),
        None => (n, n),
    };
    let ghost found = index_of(t@, seq!['.'], 0);
    let has_dot = ip_end < n;
    assert(has_dot == (found is Some));
    if !all_digits_exec(&t, 0, ip_end) || !all_digits_exec(&t, fp_start, n) {
        return None;
    }
    if !has_dot && n == 0 {
        return None;
    }
    if has_dot && ip_end == 0 && fp_start == n {
        return None;
    }
    assert(t@.subrange(0, ip_end as int) == t@.take(ip_end as int));
    assert(t@.subrange(fp_start as int, n as int) == t@.skip(fp_start as int));
    let whole = match parse_number(&t, 0, ip_end, u64::MAX / 1_000_000) {
        Some(v) => v,
        None => {
            if ip_end == 0 {
                0
            } else {
                proof {
                    let ip = t@.subrange(0, ip_end as int);
                    assert(crate::text::parse_nat(ip) == Some(digits_value(ip))) by {
                        assert(!(ip.len() > 0 && ip[0] == '+')) by {
                            assert(is_digit(ip[0]));
                        }
                    }
                    assert(digits_value(ip) * 1_000_000 > u64::MAX) by (nonlinear_arith)
                        requires
                            digits_value(ip) > u64::MAX / 1_000_000,
                    {
                    }
                }
                return None;
            }
        },
    };
    proof {
        let ip = t@.subrange(0, ip_end as int);
        if ip_end > 0 {
            assert(crate::text::parse_nat(ip) == Some(digits_value(ip))) by {
                assert(!(ip.len() > 0 && ip[0] == '+')) by {
                    assert(is_digit(ip[0]));
                }
            }
        } else {
            assert(ip.len() == 0);
        }
        assert(whole as nat == digits_value(ip));
    }
    assert forall|j: int| fp_start <= j < n implies is_digit(#[trigger] t@[j]) by {
        assert(t@.subrange(fp_start as int, n as int)[j - fp_start] == t@[j]);
    }
    let frac = crate::testrun::frac_us(&t, fp_start, n);
    assert(whole * 1_000_000 <= u64::MAX) by (nonlinear_arith)
        requires
            whole <= u64::MAX / 1_000_000,
    {
    }
    proof {
        if found is None {
            assert(fp_start == n);
            assert(t@.subrange(fp_start as int, n as int).len() == 0);
            assert(millionths(Seq::<char>::empty()) == 0) by {
                assert((Seq::<char>::empty() + seq!['0', '0', '0', '0', '0', '0']).take(6) =~= seq!['0', '0', '0', '0', '0', '0']);
                lemma_zeros_value();
            }
            assert(t@.subrange(fp_start as int, n as int) =~= Seq::<char>::empty());
            assert(t@.take(ip_end as int) == t@);
        }
    }
    if frac > u64::MAX - whole * 1_000_000 {
        return None;
    }
    Some(whole * 1_000_000 + frac)
}

} // verus!

verus! {

proof fn lemma_zeros_value()
    ensures
        digits_value(seq!['0', '0', '0', '0', '0', '0']) == 0,
{
    let z = seq!['0', '0', '0', '0', '0', '0'];
    assert(z.drop_last() == seq!['0', '0', '0', '0', '0']);
    assert(z.drop_last().drop_last() == seq!['0', '0', '0', '0']);
    assert(z.drop_last().drop_last().drop_last() == seq!['0', '0', '0']);
    assert(seq!['0', '0', '0'].drop_last() == seq!['0', '0']);
    assert(seq!['0', '0'].drop_last() == seq!['0']);
    assert(seq!['0'].drop_last() == Seq::<char>::empty());
    assert(('0' as u32) == 48);
    assert(seq!['0'].last() == '0');
    assert(digits_value(Seq::<char>::empty()) == 0);
    assert(digits_value(seq!['0']) == digits_value(seq!['0'].drop_last()) * 10 + ((seq!['0'].last() as u32 - 48) as nat));
    assert(digits_value(seq!['0']) == 0);
    assert(digits_value(seq!['0', '0']) == 0);
    assert(digits_value(seq!['0', '0', '0']) == 0);
    assert(digits_value(seq!['0', '0', '0', '0']) == 0);
    assert(digits_value(seq!['0', '0', '0', '0', '0']) == 0);
}

} // verus!

verus! {

fn number_before(s: &[char], key: &str) -> (r: Option<Option<u64>>)
    ensures
        match index_of(s@, key@, 0) {
            Some(pos) => match last_non_num(s@, pos) {
                Some(k) => match r {
                    Some(Some(v)) => decimal_millionths(s@.subrange(k + 1, pos)) == Some(v as nat),
                    Some(None) => decimal_millionths(s@.subrange(k + 1, pos)) is None || decimal_millionths(
                        s@.subrange(k + 1, pos),
                    )->0 > u64::MAX,
                    None => false,
                },
                None => r is None,
            },
            None => r is None,
        },
{
    let kc = chars_of(key);
    let pos = match find_in(s, &kc, 0) {
        Some(p) => p,
        None => return None,
    };
    match last_non_num_exec(s, pos) {
        Some(k) => Some(decimal_millionths_exec(s, k + 1, pos)),
        None => None,
    }
}

/// The build duration, as `build_duration`, unless it is out of all reason.
fn build_duration_exec(s: &[char]) -> (r: Option<u64>)
    ensures
        match r {
            Some(v) => build_duration(s@) == Some(v as nat),
            None => build_duration(s@) is None || build_duration(s@)->0 >= u64::MAX / 1000,
        },
{
    match number_before(s, "ms") {
        Some(Some(v)) => Some(v / 1000),
        Some(None) => {
            proof {
                let pos = index_of(s@, "ms"@, 0)->0;
                let k = last_non_num(s@, pos)->0;
                match decimal_millionths(s@.subrange(k + 1, pos)) {
                    Some(v) => {
                        assert(v / 1000 >= u64::MAX / 1000) by (nonlinear_arith)
                            requires
                                v > u64::MAX,
                        {
                        }
                    },
                    None => {},
                }
            }
            None
        },
        None => match number_before(s, "s ") {
            Some(r) => {
                proof {
                    if r is None {
                        let pos = index_of(s@, "s "@, 0)->0;
                        let k = last_non_num(s@, pos)->0;
                        match decimal_millionths(s@.subrange(k + 1, pos)) {
                            Some(v) => {
                                assert(v >= u64::MAX / 1000);
                            },
                            None => {},
                        }
                    }
                }
                r
            },
            None => None,
        },
    }
}

fn source_file_exec(s: &[char]) -> (r: Option<Vec<char>>)
    ensures
        match r {
            Some(w) => source_file_from(s@, 0) == Some(w@),
            None => source_file_from(s@, 0) is None,
        },
{
    let mut i: usize = 0;
    while i <= s.len()
        invariant
            i <= s@.len(),
            source_file_from(s@, 0) == source_file_from(s@, i as int),
        decreases s.len() - i,
    {
        let a = crate::parser::space_end_exec(s, i);
        if a >= s.len() {
            return None;
        }
        let e = crate::parser::run_end_exec(s, a, false);
        proof {
            crate::parser::lemma_space_end_stops(s@, i as int);
            crate::parser::lemma_run_end_grows(s@, a + 1, false);
        }
        let w = slice_vec(s, a, e);
        let t0 = chars_of(".ts");
        let t1 = chars_of(".tsx");
        let t2 = chars_of(".js");
        let t3 = chars_of(".jsx");
        let t4 = chars_of(".vue");
        let t5 = chars_of(".svelte");
        if has_suffix(&w, &t0) || has_suffix(&w, &t1) || has_suffix(&w, &t2) || has_suffix(&w, &t3) || has_suffix(
            &w,
            &t4,
        ) || has_suffix(&w, &t5) {
            return Some(w);
        }
        i = e;
    }
    None
}

fn has_text(s: &[char], t: &str) -> (r: bool)
    ensures
        r == contains(s@, t@),
{
    let tc = chars_of(t);
    has(s, &tc)
}

/// The event of a frontend output line, checked in order of precedence.
pub open spec fn frontend_event(s: Seq<char>, r: Option<FrontendLogEvent>) -> bool {
    let local = contains(s, "Local:"@) && contains(s, "http://"@);
    let ready = has_any(s, "ready - started server on", "Ready in");
    if (local || ready) && port_of_line(s) is Some {
        r == Some(FrontendLogEvent::ServerStart { port: port_of_line(s)->0 as u16 })
    } else if has_any(s, "Compiling", "building...") {
        r == Some(FrontendLogEvent::CompileStart)
    } else if contains(s, "Compiled successfully"@) || contains(s, "✓ Compiled"@) || contains(s, "built in"@) {
        r == Some(
            FrontendLogEvent::CompileSuccess {
                duration_us: match build_duration(s) {
                    Some(v) => if v < u64::MAX / 1000 { v as u64 } else { 0 },
                    None => 0,
                },
            },
        )
    } else if (contains(s, "hmr update"@) || contains(s, "hot updated"@) || contains(s, "[vite] hmr"@))
        && source_file_from(s, 0) is Some {
        r matches Some(FrontendLogEvent::HotModuleReplacement { file }) && file@ == source_file_from(s, 0)->0
    } else if contains(s, "ERROR"@) || contains(s, "Failed to compile"@) || contains(s, "✘"@) {
        r matches Some(FrontendLogEvent::Error { message }) && message@ == s
    } else if has_any(s, "WARNING", "⚠") {
        r matches Some(FrontendLogEvent::BuildWarning { message }) && message@ == s
    } else {
        r is None
    }
}

/// Reads frontend dev-server output.
pub struct FrontendLogParser;

impl FrontendLogParser {
    pub fn parse_line(line: &str) -> (r: Option<FrontendLogEvent>)
        ensures
            frontend_event(line@, r),
    {
        let s = chars_of(line);
        let local = has_text(&s, "Local:") && has_text(&s, "http://");
        let ready = has_text(&s, "ready - started server on") || has_text(&s, "Ready in");
        if local || ready {
            match port_of_line_exec(&s) {
                Some(port) => {
                    return Some(FrontendLogEvent::ServerStart { port });
                },
                None => {},
            }
        }
        if has_text(&s, "Compiling") || has_text(&s, "building...") {
            return Some(FrontendLogEvent::CompileStart);
        }
        if has_text(&s, "Compiled successfully") || has_text(&s, "✓ Compiled") || has_text(&s, "built in") {
            let d = match build_duration_exec(&s) {
                Some(v) => if v < u64::MAX / 1000 { v } else { 0 },
                None => 0,
            };
            return Some(FrontendLogEvent::CompileSuccess { duration_us: d });
        }
        if has_text(&s, "hmr update") || has_text(&s, "hot updated") || has_text(&s, "[vite] hmr") {
            match source_file_exec(&s) {
                Some(f) => {
                    return Some(FrontendLogEvent::HotModuleReplacement { file: string_of(&f) });
                },
                None => {},
            }
        }
        if has_text(&s, "ERROR") || has_text(&s, "Failed to compile") || has_text(&s, "✘") {
            return Some(FrontendLogEvent::Error { message: line.to_owned() });
        }
        if has_text(&s, "WARNING") || has_text(&s, "⚠") {
            return Some(FrontendLogEvent::BuildWarning { message: line.to_owned() });
        }
        None
    }
}

} // verus!
