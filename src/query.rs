//! Query fingerprints, query types and N+1 detection over one request.
use vstd::prelude::*;
use crate::text::{
    contains, same_chars,
    decimal, matches_at, occurs_at, push_all, push_decimal, push_str, slice_vec,
    has_prefix, starts_with, to_upper, trim, trimmed, upper_seq,
    char_is_digit, char_is_space, char_is_word, chars_of, is_digit, is_space, is_word, string_of,
};

verus! {

// ---------------------------------------------------------------------------
// Fingerprint passes. Each is a left-to-right scan with a small state, as the
// matching of its literal pattern goes.
// ---------------------------------------------------------------------------

/// Pass one: each `$` followed by digits (a positional placeholder) becomes `?`.
/// `skipping` holds while the digits of a replaced placeholder are dropped.
pub open spec fn placeholder_pass(s: Seq<char>, skipping: bool) -> Seq<char>
    decreases s.len(),
{
    if s.len() == 0 {
        s
    } else if skipping && is_digit(s[0]) {
        placeholder_pass(s.drop_first(), true)
    } else if s[0] == '$' && s.len() > 1 && is_digit(s[1]) {
        seq!['?'] + placeholder_pass(s.drop_first(), true)
    } else {
        seq![s[0]] + placeholder_pass(s.drop_first(), false)
    }
}

/// Pass two: each single-quoted literal that is closed becomes `?`.
/// `quoted` holds inside a replaced literal.
pub open spec fn string_pass(s: Seq<char>, quoted: bool) -> Seq<char>
    decreases s.len(),
{
    if s.len() == 0 {
        s
    } else if quoted {
        string_pass(s.drop_first(), s[0] != '\'')
    } else if s[0] == '\'' && s.drop_first().contains('\'') {
        seq!['?'] + string_pass(s.drop_first(), true)
    } else {
        seq![s[0]] + string_pass(s.drop_first(), false)
    }
}

/// The digits at the front of `s` are followed by the end or by a non-word character.
pub open spec fn digit_run_closed(s: Seq<char>) -> bool
    decreases s.len(),
{
    if s.len() == 0 {
        true
    } else if is_digit(s[0]) {
        digit_run_closed(s.drop_first())
    } else {
        !is_word(s[0])
    }
}

/// Pass three: each run of digits that stands as a word of its own becomes `?`.
/// `after_word` holds when the previous character is a word character;
/// `skipping` while the digits of a replaced number are dropped.
pub open spec fn number_pass(s: Seq<char>, after_word: bool, skipping: bool) -> Seq<char>
    decreases s.len(),
{
    if s.len() == 0 {
        s
    } else if skipping && is_digit(s[0]) {
        number_pass(s.drop_first(), true, true)
    } else if is_digit(s[0]) && !after_word && digit_run_closed(s) {
        seq!['?'] + number_pass(s.drop_first(), true, true)
    } else {
        seq![s[0]] + number_pass(s.drop_first(), is_word(s[0]), false)
    }
}

/// Pass four: whitespace runs collapse to one space, and none is kept at either end.
/// `gap` holds when whitespace was skipped; `started` once a word was written.
pub open spec fn space_pass(s: Seq<char>, gap: bool, started: bool) -> Seq<char>
    decreases s.len(),
{
    if s.len() == 0 {
        s
    } else if is_space(s[0]) {
        space_pass(s.drop_first(), true, started)
    } else if gap && started {
        seq![' ', s[0]] + space_pass(s.drop_first(), false, true)
    } else {
        seq![s[0]] + space_pass(s.drop_first(), false, true)
    }
}

/// The fingerprint of a query: placeholders, then string literals, then numbers
/// replaced by `?`, and whitespace collapsed.
pub open spec fn fingerprint_of(q: Seq<char>) -> Seq<char> {
    space_pass(number_pass(string_pass(placeholder_pass(q, false), false), false, false), false, false)
}

proof fn lemma_rest(s: Seq<char>, i: int)
    requires
        0 <= i < s.len(),
    ensures
        s.subrange(i, s.len() as int)[0] == s[i],
        s.subrange(i, s.len() as int).drop_first() == s.subrange(i + 1, s.len() as int),
{
    assert(s.subrange(i, s.len() as int).drop_first() =~= s.subrange(i + 1, s.len() as int));
}

fn replace_placeholders(s: &[char]) -> (r: Vec<char>)
    ensures
        r@ == placeholder_pass(s@, false),
{
    let mut out: Vec<char> = Vec::new();
    let mut skipping = false;
    let mut i: usize = 0;
    assert(s@.subrange(0, s.len() as int) =~= s@);
    while i < s.len()
        invariant
            i <= s.len(),
            out@ + placeholder_pass(s@.subrange(i as int, s.len() as int), skipping)
                == placeholder_pass(s@, false),
        decreases s.len() - i,
    {
        proof { lemma_rest(s@, i as int); }
        let c = s[i];
        if skipping && char_is_digit(c) {
        } else if c == '$' && i + 1 < s.len() && char_is_digit(s[i + 1]) {
            out.push('?');
            skipping = true;
        } else {
            out.push(c);
            skipping = false;
        }
        i += 1;
        assert(out@ + placeholder_pass(s@.subrange(i as int, s.len() as int), skipping)
            == placeholder_pass(s@, false));
    }
    assert(out@ + Seq::<char>::empty() == out@);
    out
}

/// Whether `c` occurs in `s` after position `i`.
fn occurs_after(s: &[char], i: usize, c: char) -> (r: bool)
    requires
        i < s.len(),
    ensures
        r == s@.subrange(i as int + 1, s.len() as int).contains(c),
{
    let mut j: usize = i + 1;
    while j < s.len()
        invariant
            i < j <= s.len(),
            forall|k: int| i < k < j ==> s@[k] != c,
        decreases s.len() - j,
    {
        if s[j] == c {
            assert(s@.subrange(i as int + 1, s.len() as int)[j - i - 1] == c);
            return true;
        }
        j += 1;
    }
    assert forall|k: int| 0 <= k < s@.subrange(i as int + 1, s.len() as int).len()
        implies #[trigger] s@.subrange(i as int + 1, s.len() as int)[k] != c by {
        assert(s@.subrange(i as int + 1, s.len() as int)[k] == s@[i + 1 + k]);
    }
    false
}

fn replace_strings(s: &[char]) -> (r: Vec<char>)
    ensures
        r@ == string_pass(s@, false),
{
    let mut out: Vec<char> = Vec::new();
    let mut quoted = false;
    let mut i: usize = 0;
    assert(s@.subrange(0, s.len() as int) =~= s@);
    while i < s.len()
        invariant
            i <= s.len(),
            out@ + string_pass(s@.subrange(i as int, s.len() as int), quoted)
                == string_pass(s@, false),
        decreases s.len() - i,
    {
        proof { lemma_rest(s@, i as int); }
        let c = s[i];
        if quoted {
            quoted = c != '\'';
        } else if c == '\'' && occurs_after(s, i, '\'') {
            out.push('?');
            quoted = true;
        } else {
            out.push(c);
        }
        i += 1;
        assert(out@ + string_pass(s@.subrange(i as int, s.len() as int), quoted)
            == string_pass(s@, false));
    }
    assert(out@ + Seq::<char>::empty() == out@);
    out
}

fn run_closed_at(s: &[char], i: usize) -> (r: bool)
    requires
        i <= s.len(),
    ensures
        r == digit_run_closed(s@.subrange(i as int, s.len() as int)),
    decreases s.len() - i,
{
    if i == s.len() {
        return true;
    }
    proof { lemma_rest(s@, i as int); }
    if char_is_digit(s[i]) {
        run_closed_at(s, i + 1)
    } else {
        !char_is_word(s[i])
    }
}

fn replace_numbers(s: &[char]) -> (r: Vec<char>)
    ensures
        r@ == number_pass(s@, false, false),
{
    let mut out: Vec<char> = Vec::new();
    let mut after_word = false;
    let mut skipping = false;
    let mut i: usize = 0;
    assert(s@.subrange(0, s.len() as int) =~= s@);
    while i < s.len()
        invariant
            i <= s.len(),
            out@ + number_pass(s@.subrange(i as int, s.len() as int), after_word, skipping)
                == number_pass(s@, false, false),
        decreases s.len() - i,
    {
        proof { lemma_rest(s@, i as int); }
        let c = s[i];
        if skipping && char_is_digit(c) {
            after_word = true;
        } else if char_is_digit(c) && !after_word && run_closed_at(s, i) {
            out.push('?');
            after_word = true;
            skipping = true;
        } else {
            out.push(c);
            after_word = char_is_word(c);
            skipping = false;
        }
        i += 1;
        assert(out@ + number_pass(s@.subrange(i as int, s.len() as int), after_word, skipping)
            == number_pass(s@, false, false));
    }
    assert(out@ + Seq::<char>::empty() == out@);
    out
}

fn collapse_spaces(s: &[char]) -> (r: Vec<char>)
    ensures
        r@ == space_pass(s@, false, false),
{
    let mut out: Vec<char> = Vec::new();
    let mut gap = false;
    let mut started = false;
    let mut i: usize = 0;
    assert(s@.subrange(0, s.len() as int) =~= s@);
    while i < s.len()
        invariant
            i <= s.len(),
            out@ + space_pass(s@.subrange(i as int, s.len() as int), gap, started)
                == space_pass(s@, false, false),
        decreases s.len() - i,
    {
        proof { lemma_rest(s@, i as int); }
        let c = s[i];
        if char_is_space(c) {
            gap = true;
        } else {
            if gap && started {
                out.push(' ');
            }
            out.push(c);
            gap = false;
            started = true;
        }
        i += 1;
        assert(out@ + space_pass(s@.subrange(i as int, s.len() as int), gap, started)
            == space_pass(s@, false, false));
    }
    assert(out@ + Seq::<char>::empty() == out@);
    out
}

/// The fingerprint of the query `q`, as characters.
pub fn fingerprint_chars(q: &[char]) -> (r: Vec<char>)
    ensures
        r@ == fingerprint_of(q@),
{
    let a = replace_placeholders(q);
    let b = replace_strings(&a);
    let c = replace_numbers(&b);
    collapse_spaces(&c)
}

/// A query with its literal values replaced by `?`.
#[derive(Debug, Clone, PartialEq, Eq, Hash)]
pub struct QueryFingerprint {
    pub normalized: String,
}

impl QueryFingerprint {
    pub fn new(query: &str) -> (r: QueryFingerprint)
        ensures
            r.normalized@ == fingerprint_of(query@),
    {
        let q = chars_of(query);
        let f = fingerprint_chars(&q);
        QueryFingerprint { normalized: string_of(&f) }
    }
}

} // verus!

verus! {

/// The kind of a query, by its leading keyword.
#[derive(Debug, Clone, Copy, PartialEq, Eq, Structural)]
pub enum QueryType {
    Select,
    Insert,
    Update,
    Delete,
    Begin,
    Commit,
    Rollback,
    Other,
}

/// The kind of query whose trimmed, upper-cased text starts with the keyword.
pub open spec fn query_type_of(sql: Seq<char>) -> QueryType {
    let u = upper_seq(trim(sql));
    if starts_with(u, seq!['S', 'E', 'L', 'E', 'C', 'T']) {
        QueryType::Select
    } else if starts_with(u, seq!['I', 'N', 'S', 'E', 'R', 'T']) {
        QueryType::Insert
    } else if starts_with(u, seq!['U', 'P', 'D', 'A', 'T', 'E']) {
        QueryType::Update
    } else if starts_with(u, seq!['D', 'E', 'L', 'E', 'T', 'E']) {
        QueryType::Delete
    } else if starts_with(u, seq!['B', 'E', 'G', 'I', 'N']) {
        QueryType::Begin
    } else if starts_with(u, seq!['C', 'O', 'M', 'M', 'I', 'T']) {
        QueryType::Commit
    } else if starts_with(u, seq!['R', 'O', 'L', 'L', 'B', 'A', 'C', 'K']) {
        QueryType::Rollback
    } else {
        QueryType::Other
    }
}

impl QueryType {
    pub fn from_sql(sql: &str) -> (r: QueryType)
        ensures
            r == query_type_of(sql@),
    {
        let s = chars_of(sql);
        let t = trimmed(&s);
        let u = to_upper(&t);
        if has_prefix(&u, &['S', 'E', 'L', 'E', 'C', 'T']) {
            QueryType::Select
        } else if has_prefix(&u, &['I', 'N', 'S', 'E', 'R', 'T']) {
            QueryType::Insert
        } else if has_prefix(&u, &['U', 'P', 'D', 'A', 'T', 'E']) {
            QueryType::Update
        } else if has_prefix(&u, &['D', 'E', 'L', 'E', 'T', 'E']) {
            QueryType::Delete
        } else if has_prefix(&u, &['B', 'E', 'G', 'I', 'N']) {
            QueryType::Begin
        } else if has_prefix(&u, &['C', 'O', 'M', 'M', 'I', 'T']) {
            QueryType::Commit
        } else if has_prefix(&u, &['R', 'O', 'L', 'L', 'B', 'A', 'C', 'K']) {
            QueryType::Rollback
        } else {
            QueryType::Other
        }
    }
}

} // verus!

verus! {

/// One query of a request. Durations are in microseconds.
#[derive(Debug, Clone)]
pub struct QueryInfo {
    pub raw_query: String,
    pub fingerprint: QueryFingerprint,
    pub duration_us: u64,
    pub rows: Option<usize>,
    pub query_type: QueryType,
}

impl QueryInfo {
    /// The query `raw` with its fingerprint and kind derived from its text.
    pub fn new(raw: &str, duration_us: u64, rows: Option<usize>) -> (r: QueryInfo)
        ensures
            r.raw_query@ == raw@,
            r.fingerprint.normalized@ == fingerprint_of(raw@),
            r.duration_us == duration_us,
            r.rows == rows,
            r.query_type == query_type_of(raw@),
    {
        QueryInfo {
            raw_query: raw.to_owned(),
            fingerprint: QueryFingerprint::new(raw),
            duration_us,
            rows,
            query_type: QueryType::from_sql(raw),
        }
    }
}

/// One in-flight or completed request and the queries it ran.
#[derive(Debug, Clone)]
pub struct RequestContext {
    pub queries: Vec<QueryInfo>,
    /// When the request started, in the caller's clock.
    pub start_time: u64,
    pub path: Option<String>,
}

pub open spec fn total_duration(qs: Seq<QueryInfo>) -> nat
    decreases qs.len(),
{
    if qs.len() == 0 {
        0
    } else {
        total_duration(qs.drop_last()) + qs.last().duration_us as nat
    }
}

/// `n` capped at the largest `u64`.
pub open spec fn saturate(n: nat) -> u64 {
    if n <= u64::MAX {
        n as u64
    } else {
        u64::MAX
    }
}

impl RequestContext {
    pub fn new(path: Option<String>, start_time: u64) -> (r: RequestContext)
        ensures
            r.queries@.len() == 0,
            r.path == path,
            r.start_time == start_time,
    {
        RequestContext { queries: Vec::new(), start_time, path }
    }

    pub fn add_query(&mut self, query: QueryInfo)
        ensures
            final(self).queries@ == old(self).queries@.push(query),
            final(self).path == old(self).path,
            final(self).start_time == old(self).start_time,
    {
        self.queries.push(query);
    }

    /// The sum of the queries' durations, capped at the largest `u64`.
    pub fn total_query_time(&self) -> (r: u64)
        ensures
            r == saturate(total_duration(self.queries@)),
    {
        let mut acc: u64 = 0;
        let mut i: usize = 0;
        while i < self.queries.len()
            invariant
                i <= self.queries@.len(),
                acc == saturate(total_duration(self.queries@.take(i as int))),
            decreases self.queries.len() - i,
        {
            assert(self.queries@.take(i + 1).drop_last() == self.queries@.take(i as int));
            acc = acc.saturating_add(self.queries[i].duration_us);
            i += 1;
        }
        assert(self.queries@.take(i as int) == self.queries@);
        acc
    }

    pub fn query_count(&self) -> (r: usize)
        ensures
            r == self.queries@.len(),
    {
        self.queries.len()
    }
}

} // verus!

verus! {

/// `q` is a `Select` query with fingerprint `f`.
pub open spec fn is_select_with(q: QueryInfo, f: Seq<char>) -> bool {
    q.query_type == QueryType::Select && q.fingerprint.normalized@ == f
}

/// How many `Select` queries of `qs` have fingerprint `f`.
pub open spec fn select_count(qs: Seq<QueryInfo>, f: Seq<char>) -> nat
    decreases qs.len(),
{
    if qs.len() == 0 {
        0
    } else {
        select_count(qs.drop_last(), f) + if is_select_with(qs.last(), f) { 1nat } else { 0nat }
    }
}

/// The summed duration of the `Select` queries of `qs` with fingerprint `f`.
pub open spec fn select_duration(qs: Seq<QueryInfo>, f: Seq<char>) -> nat
    decreases qs.len(),
{
    if qs.len() == 0 {
        0
    } else {
        select_duration(qs.drop_last(), f) + if is_select_with(qs.last(), f) {
            qs.last().duration_us as nat
        } else {
            0nat
        }
    }
}

/// `sample` is the text of the first `Select` query of `qs` with fingerprint `f`.
pub open spec fn is_first_sample(qs: Seq<QueryInfo>, f: Seq<char>, sample: Seq<char>) -> bool {
    exists|j: int|
        0 <= j < qs.len() && is_select_with(#[trigger] qs[j], f) && qs[j].raw_query@ == sample
            && forall|k: int| 0 <= k < j ==> !is_select_with(#[trigger] qs[k], f)
}

/// The index after the run of characters satisfying `is_space` from `i`.
pub open spec fn space_run(s: Seq<char>, i: int) -> int
    decreases s.len() - i,
{
    if 0 <= i < s.len() && is_space(s[i]) {
        space_run(s, i + 1)
    } else {
        i
    }
}

/// The index after the run of word characters from `i`.
pub open spec fn word_run(s: Seq<char>, i: int) -> int
    decreases s.len() - i,
{
    if 0 <= i < s.len() && is_word(s[i]) {
        word_run(s, i + 1)
    } else {
        i
    }
}

/// The table named by `FROM`, whitespace, an optional `"` and a word, at `i`.
pub open spec fn from_table_at(s: Seq<char>, i: int) -> Option<Seq<char>> {
    if occurs_at(s, seq!['F', 'R', 'O', 'M'], i) {
        let b = space_run(s, i + 4);
        let c = if b < s.len() && s[b] == '"' { b + 1 } else { b };
        let e = word_run(s, c);
        if b > i + 4 && e > c {
            Some(s.subrange(c, e))
        } else {
            None
        }
    } else {
        None
    }
}

/// The table of the first `FROM` clause at or after `i` that names one.
pub open spec fn first_from_table(s: Seq<char>, i: int) -> Option<Seq<char>>
    decreases s.len() - i,
{
    if i < 0 || i >= s.len() {
        None
    } else {
        match from_table_at(s, i) {
            Some(t) => Some(t),
            None => first_from_table(s, i + 1),
        }
    }
}

/// A table name with one trailing `s` removed.
pub open spec fn singular(t: Seq<char>) -> Seq<char> {
    if t.len() > 0 && t.last() == 's' {
        t.drop_last()
    } else {
        t
    }
}

/// The advice attached to an N+1 issue whose sample query is `q`.
pub open spec fn suggestion_text(q: Seq<char>, count: nat) -> Seq<char> {
    let head = "Possible N+1 query detected ("@ + decimal(count);
    match first_from_table(q, 0) {
        Some(t) => head + " times). Consider using eager loading:\n  Model.includes(:"@ + singular(t)
            + ") instead of lazy loading"@,
        None => head + " times). Consider using eager loading with .includes() or .preload()"@,
    }
}

fn space_run_exec(s: &[char], i: usize) -> (r: usize)
    requires
        i <= s.len(),
    ensures
        r as int == space_run(s@, i as int),
        i <= r <= s.len(),
    decreases s.len() - i,
{
    if i < s.len() && char_is_space(s[i]) {
        space_run_exec(s, i + 1)
    } else {
        i
    }
}

fn word_run_exec(s: &[char], i: usize) -> (r: usize)
    requires
        i <= s.len(),
    ensures
        r as int == word_run(s@, i as int),
        i <= r <= s.len(),
    decreases s.len() - i,
{
    if i < s.len() && char_is_word(s[i]) {
        word_run_exec(s, i + 1)
    } else {
        i
    }
}

fn from_table_exec(s: &[char], i: usize) -> (r: Option<(usize, usize)>)
    requires
        i <= s.len(),
    ensures
        match r {
            Some((c, e)) => c <= e <= s.len() && from_table_at(s@, i as int) == Some(
                s@.subrange(c as int, e as int),
            ),
            None => from_table_at(s@, i as int) is None,
        },
{
    if !matches_at(s, &['F', 'R', 'O', 'M'], i) {
        return None;
    }
    let b = space_run_exec(s, i + 4);
    let c = if b < s.len() && s[b] == '"' { b + 1 } else { b };
    let e = word_run_exec(s, c);
    if b > i + 4 && e > c {
        Some((c, e))
    } else {
        None
    }
}

fn first_from_table_exec(s: &[char]) -> (r: Option<(usize, usize)>)
    ensures
        match r {
            Some((c, e)) => c <= e <= s.len() && first_from_table(s@, 0) == Some(
                s@.subrange(c as int, e as int),
            ),
            None => first_from_table(s@, 0) is None,
        },
{
    let mut i: usize = 0;
    while i < s.len()
        invariant
            i <= s.len(),
            first_from_table(s@, 0) == first_from_table(s@, i as int),
        decreases s.len() - i,
    {
        match from_table_exec(s, i) {
            Some(ce) => {
                return Some(ce);
            },
            None => {},
        }
        i += 1;
    }
    None
}

/// The advice for an N+1 issue of `count` repetitions of `query`.
pub fn suggestion_for(query: &[char], count: usize) -> (r: Vec<char>)
    ensures
        r@ == suggestion_text(query@, count as nat),
{
    let mut out: Vec<char> = Vec::new();
    push_str(&mut out, "Possible N+1 query detected (");
    push_decimal(&mut out, count as u64);
    match first_from_table_exec(query) {
        Some((c, e)) => {
            push_str(&mut out, " times). Consider using eager loading:\n  Model.includes(:");
            let end = if e > c && query[e - 1] == 's' { e - 1 } else { e };
            let t = slice_vec(query, c, end);
            assert(t@ == singular(query@.subrange(c as int, e as int)));
            push_all(&mut out, &t);
            push_str(&mut out, ") instead of lazy loading");
        },
        None => {
            push_str(&mut out, " times). Consider using eager loading with .includes() or .preload()");
        },
    }
    out
}

} // verus!

verus! {

/// A fingerprint repeated within one request.
#[derive(Debug, Clone)]
pub struct NPlusOneIssue {
    pub fingerprint: QueryFingerprint,
    pub count: usize,
    /// Summed duration of the repeated queries in microseconds, capped at the largest `u64`.
    pub total_duration_us: u64,
    pub sample_query: String,
    pub suggestion: String,
}

/// The `Select` queries of one fingerprint seen so far.
struct Group {
    fp: Vec<char>,
    count: usize,
    total: u64,
    first: usize,
}

spec fn group_ok(g: Group, qs: Seq<QueryInfo>, n: int) -> bool {
    &&& g.count == select_count(qs.take(n), g.fp@)
    &&& g.count > 0
    &&& g.total == saturate(select_duration(qs.take(n), g.fp@))
    &&& g.first < n
    &&& is_select_with(qs[g.first as int], g.fp@)
    &&& forall|k: int| 0 <= k < g.first ==> !is_select_with(#[trigger] qs[k], g.fp@)
}

proof fn lemma_count_positive(qs: Seq<QueryInfo>, f: Seq<char>)
    requires
        select_count(qs, f) > 0,
    ensures
        exists|j: int| 0 <= j < qs.len() && is_select_with(#[trigger] qs[j], f),
    decreases qs.len(),
{
    if is_select_with(qs.last(), f) {
        assert(is_select_with(qs[qs.len() - 1], f));
    } else {
        lemma_count_positive(qs.drop_last(), f);
        let j = choose|j: int| 0 <= j < qs.drop_last().len() && is_select_with(#[trigger] qs.drop_last()[j], f);
        assert(qs[j] == qs.drop_last()[j]);
    }
}

proof fn lemma_count_bound(qs: Seq<QueryInfo>, f: Seq<char>)
    ensures
        select_count(qs, f) <= qs.len(),
    decreases qs.len(),
{
    if qs.len() > 0 {
        lemma_count_bound(qs.drop_last(), f);
    }
}

/// Groups the `Select` queries of `qs` by fingerprint, in order of first appearance.
#[verifier::rlimit(50)]
fn group_selects(qs: &Vec<QueryInfo>) -> (groups: Vec<Group>)
    ensures
        forall|g: int| 0 <= g < groups.len() ==> group_ok(#[trigger] groups[g], qs@, qs@.len() as int),
        forall|g: int, h: int|
            0 <= g < groups.len() && 0 <= h < groups.len() && g != h ==> #[trigger] groups[g].fp@
                != #[trigger] groups[h].fp@,
        forall|j: int|
            0 <= j < qs@.len() && (#[trigger] qs@[j]).query_type == QueryType::Select ==> exists|g: int|
                0 <= g < groups.len() && #[trigger] groups[g].fp@ == qs@[j].fingerprint.normalized@,
{
    let mut groups: Vec<Group> = Vec::new();
    let mut i: usize = 0;
    while i < qs.len()
        invariant
            i <= qs@.len(),
            forall|g: int| 0 <= g < groups.len() ==> group_ok(#[trigger] groups[g], qs@, i as int),
            forall|g: int, h: int|
                0 <= g < groups.len() && 0 <= h < groups.len() && g != h ==> #[trigger] groups[g].fp@
                    != #[trigger] groups[h].fp@,
            forall|j: int|
                0 <= j < i && (#[trigger] qs@[j]).query_type == QueryType::Select ==> exists|g: int|
                    0 <= g < groups.len() && #[trigger] groups[g].fp@ == qs@[j].fingerprint.normalized@,
        decreases qs.len() - i,
    {
        let q = &qs[i];
        let ghost prev = qs@.take(i as int);
        let ghost next = qs@.take(i + 1);
        assert(next.drop_last() == prev);
        assert(next.last() == qs@[i as int]);
        proof {
            lemma_count_bound(prev, q.fingerprint.normalized@);
        }
        if q.query_type == QueryType::Select {
            let fp = chars_of(q.fingerprint.normalized.as_str());
            let mut g: usize = 0;
            let mut found = false;
            while g < groups.len() && !found
                invariant
                    g <= groups.len(),
                    found ==> g < groups.len() && groups[g as int].fp@ == fp@,
                    forall|h: int| 0 <= h < g ==> (#[trigger] groups[h]).fp@ != fp@,
                decreases 2 * (groups.len() - g) + if found { 0int } else { 1int },
            {
                if same_chars(&groups[g].fp, &fp) {
                    found = true;
                } else {
                    g += 1;
                }
            }
            if found {
                let ghost old_groups = groups@;
                let old = &groups[g];
                proof {
                    lemma_count_bound(prev, fp@);
                    assert(group_ok(groups[g as int], qs@, i as int));
                }
                let updated = Group {
                    fp: slice_vec(&old.fp, 0, old.fp.len()),
                    count: old.count + 1,
                    total: old.total.saturating_add(q.duration_us),
                    first: old.first,
                };
                assert(old.fp@.subrange(0, old.fp@.len() as int) == old.fp@);
                groups.set(g, updated);
                assert forall|h: int| 0 <= h < groups.len() implies group_ok(#[trigger] groups[h], qs@, i + 1) by {
                    if h != g {
                        assert(group_ok(old_groups[h], qs@, i as int));
                        assert(!is_select_with(qs@[i as int], groups[h].fp@));
                    }
                }
                assert forall|j: int|
                    0 <= j < i + 1 && (#[trigger] qs@[j]).query_type == QueryType::Select implies exists|h: int|
                        0 <= h < groups.len() && #[trigger] groups[h].fp@ == qs@[j].fingerprint.normalized@ by {
                    if j < i {
                        let h = choose|h: int| 0 <= h < old_groups.len() && #[trigger] old_groups[h].fp@ == qs@[j].fingerprint.normalized@;
                        assert(groups[h].fp@ == old_groups[h].fp@);
                    } else {
                        assert(groups[g as int].fp@ == qs@[j].fingerprint.normalized@);
                    }
                }
            } else {
                let ghost old_groups = groups@;
                proof {
                    assert forall|k: int| 0 <= k < i implies !is_select_with(#[trigger] qs@[k], fp@) by {
                        if is_select_with(qs@[k], fp@) {
                            let h = choose|h: int| 0 <= h < old_groups.len() && #[trigger] old_groups[h].fp@ == qs@[k].fingerprint.normalized@;
                        }
                    }
                    assert(select_count(prev, fp@) == 0) by {
                        if select_count(prev, fp@) > 0 {
                            lemma_count_positive(prev, fp@);
                            let k = choose|k: int| 0 <= k < prev.len() && is_select_with(#[trigger] prev[k], fp@);
                            assert(prev[k] == qs@[k]);
                        }
                    }
                    assert(select_duration(prev, fp@) == 0) by {
                        lemma_duration_zero(prev, fp@);
                    }
                }
                groups.push(Group { fp, count: 1, total: q.duration_us, first: i });
                assert forall|h: int| 0 <= h < groups.len() implies group_ok(#[trigger] groups[h], qs@, i + 1) by {
                    if h < old_groups.len() {
                        assert(group_ok(old_groups[h], qs@, i as int));
                        assert(!is_select_with(qs@[i as int], groups[h].fp@));
                    }
                }
                assert forall|j: int|
                    0 <= j < i + 1 && (#[trigger] qs@[j]).query_type == QueryType::Select implies exists|h: int|
                        0 <= h < groups.len() && #[trigger] groups[h].fp@ == qs@[j].fingerprint.normalized@ by {
                    if j < i {
                        let h = choose|h: int| 0 <= h < old_groups.len() && #[trigger] old_groups[h].fp@ == qs@[j].fingerprint.normalized@;
                        assert(groups[h].fp@ == old_groups[h].fp@);
                    } else {
                        assert(groups[old_groups.len() as int].fp@ == qs@[j].fingerprint.normalized@);
                    }
                }
            }
        } else {
            assert forall|h: int| 0 <= h < groups.len() implies group_ok(#[trigger] groups[h], qs@, i + 1) by {
                assert(group_ok(groups[h], qs@, i as int));
            }
        }
        i += 1;
    }
    assert(qs@.take(qs@.len() as int) == qs@);
    groups
}

proof fn lemma_duration_zero(qs: Seq<QueryInfo>, f: Seq<char>)
    requires
        select_count(qs, f) == 0,
    ensures
        select_duration(qs, f) == 0,
    decreases qs.len(),
{
    if qs.len() > 0 {
        lemma_duration_zero(qs.drop_last(), f);
    }
}

} // verus!

verus! {

/// `issue` reports the `Select` queries of `qs` that share its fingerprint,
/// and they are more than two.
pub open spec fn n_plus_one_ok(issue: NPlusOneIssue, qs: Seq<QueryInfo>) -> bool {
    let f = issue.fingerprint.normalized@;
    &&& issue.count == select_count(qs, f)
    &&& issue.count > 2
    &&& issue.total_duration_us == saturate(select_duration(qs, f))
    &&& is_first_sample(qs, f, issue.sample_query@)
    &&& issue.suggestion@ == suggestion_text(issue.sample_query@, issue.count as nat)
}

/// `r` lists the N+1 issues of the queries `qs`: one for each fingerprint
/// shared by more than two `Select` queries, none twice, most repeated first.
pub open spec fn n_plus_one_result(qs: Seq<QueryInfo>, r: Seq<NPlusOneIssue>) -> bool {
    &&& forall|k: int| 0 <= k < r.len() ==> n_plus_one_ok(#[trigger] r[k], qs)
    &&& forall|k: int, l: int| 0 <= k < l < r.len() ==> #[trigger] r[k].count >= #[trigger] r[l].count
    &&& forall|k: int, l: int|
        0 <= k < r.len() && 0 <= l < r.len() && k != l ==> #[trigger] r[k].fingerprint.normalized@
            != #[trigger] r[l].fingerprint.normalized@
    &&& forall|f: Seq<char>|
        select_count(qs, f) > 2 ==> exists|k: int| 0 <= k < r.len() && #[trigger] r[k].fingerprint.normalized@ == f
}

spec fn issue_from(issue: NPlusOneIssue, g: Group, qs: Seq<QueryInfo>) -> bool {
    &&& issue.fingerprint.normalized@ == g.fp@
    &&& issue.count == g.count
    &&& issue.total_duration_us == g.total
    &&& issue.sample_query@ == qs[g.first as int].raw_query@
    &&& issue.suggestion@ == suggestion_text(issue.sample_query@, issue.count as nat)
}

spec fn ranked_before(groups: Seq<Group>, a: int, b: int) -> bool {
    groups[a].count > groups[b].count || (groups[a].count == groups[b].count && a < b)
}

/// Finds the fingerprints repeated in one request.
pub struct NPlusOneDetector;

impl NPlusOneDetector {
    /// The N+1 issues of a request: one for each fingerprint that more than two
    /// of its `Select` queries share, most repeated first.
    pub fn detect(context: &RequestContext) -> (r: Vec<NPlusOneIssue>)
        ensures
            n_plus_one_result(context.queries@, r@),
    {
        let qs = &context.queries;
        let groups = group_selects(qs);
        assert(qs@.take(qs@.len() as int) == qs@);
        let mut maxc: usize = 2;
        let mut g: usize = 0;
        while g < groups.len()
            invariant
                g <= groups.len(),
                maxc >= 2,
                forall|h: int| 0 <= h < g ==> (#[trigger] groups[h]).count <= maxc,
            decreases groups.len() - g,
        {
            if groups[g].count > maxc {
                maxc = groups[g].count;
            }
            g += 1;
        }
        let mut out: Vec<NPlusOneIssue> = Vec::new();
        let ghost mut src: Seq<int> = Seq::empty();
        let mut c: usize = maxc;
        while c > 2
            invariant
                2 <= c <= maxc,
                forall|h: int| 0 <= h < groups.len() ==> (#[trigger] groups[h]).count <= maxc,
                forall|h: int| 0 <= h < groups.len() ==> group_ok(#[trigger] groups[h], qs@, qs@.len() as int),
                out.len() == src.len(),
                forall|k: int| 0 <= k < src.len() ==> 0 <= #[trigger] src[k] < groups.len(),
                forall|k: int| 0 <= k < src.len() ==> issue_from(#[trigger] out[k], groups[src[k]], qs@),
                forall|k: int| 0 <= k < src.len() ==> groups[#[trigger] src[k]].count > c,
                forall|k: int, l: int| 0 <= k < l < src.len() ==> ranked_before(groups@, #[trigger] src[k], #[trigger] src[l]),
                forall|h: int| 0 <= h < groups.len() && (#[trigger] groups[h]).count > c ==> exists|k: int|
                    0 <= k < src.len() && #[trigger] src[k] == h,
            decreases c,
        {
            let mut j: usize = 0;
            while j < groups.len()
                invariant
                    2 < c <= maxc,
                    j <= groups.len(),
                    forall|h: int| 0 <= h < groups.len() ==> (#[trigger] groups[h]).count <= maxc,
                    forall|h: int| 0 <= h < groups.len() ==> group_ok(#[trigger] groups[h], qs@, qs@.len() as int),
                    out.len() == src.len(),
                    forall|k: int| 0 <= k < src.len() ==> 0 <= #[trigger] src[k] < groups.len(),
                    forall|k: int| 0 <= k < src.len() ==> issue_from(#[trigger] out[k], groups[src[k]], qs@),
                    forall|k: int| 0 <= k < src.len() ==> groups[#[trigger] src[k]].count > c
                        || (groups[src[k]].count == c && src[k] < j),
                    forall|k: int, l: int| 0 <= k < l < src.len() ==> ranked_before(groups@, #[trigger] src[k], #[trigger] src[l]),
                    forall|h: int|
                        0 <= h < groups.len() && ((#[trigger] groups[h]).count > c || (groups[h].count == c && h < j))
                            ==> exists|k: int| 0 <= k < src.len() && #[trigger] src[k] == h,
                decreases groups.len() - j,
            {
                if groups[j].count == c {
                    let grp = &groups[j];
                    proof {
                        assert(group_ok(groups[j as int], qs@, qs@.len() as int));
                    }
                    let sample = qs[grp.first].raw_query.clone();
                    let sample_chars = chars_of(sample.as_str());
                    let advice = suggestion_for(&sample_chars, grp.count);
                    let issue = NPlusOneIssue {
                        fingerprint: QueryFingerprint { normalized: string_of(&grp.fp) },
                        count: grp.count,
                        total_duration_us: grp.total,
                        sample_query: sample,
                        suggestion: string_of(&advice),
                    };
                    let ghost old_src = src;
                    out.push(issue);
                    proof {
                        src = src.push(j as int);
                        assert forall|h: int|
                            0 <= h < groups.len() && ((#[trigger] groups[h]).count > c || (groups[h].count == c && h < j + 1))
                                implies exists|k: int| 0 <= k < src.len() && #[trigger] src[k] == h by {
                            if h == j {
                                assert(src[old_src.len() as int] == h);
                            } else {
                                let k = choose|k: int| 0 <= k < old_src.len() && #[trigger] old_src[k] == h;
                                assert(src[k] == h);
                            }
                        }
                        assert forall|k: int, l: int| 0 <= k < l < src.len() implies ranked_before(groups@, #[trigger] src[k], #[trigger] src[l]) by {
                            if l < old_src.len() {
                                assert(src[k] == old_src[k] && src[l] == old_src[l]);
                            }
                        }
                    }
                }
                j += 1;
            }
            c -= 1;
        }
        proof {
            let qv = qs@;
            assert forall|k: int| 0 <= k < out.len() implies n_plus_one_ok(#[trigger] out[k], qv) by {
                let grp = groups[src[k]];
                assert(group_ok(grp, qv, qv.len() as int));
                assert(is_select_with(qv[grp.first as int], grp.fp@));
            }
            assert forall|k: int, l: int| 0 <= k < out.len() && 0 <= l < out.len() && k != l
                implies #[trigger] out[k].fingerprint.normalized@ != #[trigger] out[l].fingerprint.normalized@ by {
                if k < l {
                    assert(ranked_before(groups@, src[k], src[l]));
                } else {
                    assert(ranked_before(groups@, src[l], src[k]));
                }
            }
            assert forall|k: int, l: int| 0 <= k < l < out.len() implies #[trigger] out[k].count >= #[trigger] out[l].count by {
                assert(ranked_before(groups@, src[k], src[l]));
            }
            assert forall|f: Seq<char>| select_count(qv, f) > 2 implies exists|k: int|
                0 <= k < out.len() && #[trigger] out[k].fingerprint.normalized@ == f by {
                lemma_count_positive(qv, f);
                let j = choose|j: int| 0 <= j < qv.len() && is_select_with(#[trigger] qv[j], f);
                let h = choose|h: int| 0 <= h < groups.len() && #[trigger] groups[h].fp@ == qv[j].fingerprint.normalized@;
                assert(group_ok(groups[h], qv, qv.len() as int));
                let k = choose|k: int| 0 <= k < src.len() && #[trigger] src[k] == h;
                assert(out[k].fingerprint.normalized@ == f);
            }
        }
        out
    }
}

} // verus!

verus! {

proof fn lemma_uniform_count(qs: Seq<QueryInfo>, f: Seq<char>, g: Seq<char>)
    requires
        forall|j: int| 0 <= j < qs.len() ==> is_select_with(#[trigger] qs[j], f),
    ensures
        select_count(qs, g) == if g == f { qs.len() } else { 0 },
    decreases qs.len(),
{
    if qs.len() > 0 {
        let d = qs.drop_last();
        assert forall|j: int| 0 <= j < d.len() implies is_select_with(#[trigger] d[j], f) by {
            assert(d[j] == qs[j]);
        }
        lemma_uniform_count(d, f, g);
        assert(is_select_with(qs[qs.len() - 1], f));
    }
}

proof fn lemma_uniform_duration(qs: Seq<QueryInfo>, f: Seq<char>)
    requires
        forall|j: int| 0 <= j < qs.len() ==> is_select_with(#[trigger] qs[j], f),
    ensures
        select_duration(qs, f) == total_duration(qs),
    decreases qs.len(),
{
    if qs.len() > 0 {
        let d = qs.drop_last();
        assert forall|j: int| 0 <= j < d.len() implies is_select_with(#[trigger] d[j], f) by {
            assert(d[j] == qs[j]);
        }
        lemma_uniform_duration(d, f);
        assert(is_select_with(qs[qs.len() - 1], f));
    }
}

/// A request whose queries are all `Select` queries of one fingerprint has one
/// N+1 issue when they are three or more: it counts them all, its sample is
/// the first, and its total is their summed duration (capped at the largest
/// `u64`). It has none when they are two or fewer.
pub proof fn n_plus_one_threshold(qs: Seq<QueryInfo>, f: Seq<char>, r: Seq<NPlusOneIssue>)
    requires
        forall|j: int| 0 <= j < qs.len() ==> is_select_with(#[trigger] qs[j], f),
        n_plus_one_result(qs, r),
    ensures
        qs.len() > 2 ==> r.len() == 1 && r[0].count == qs.len() && r[0].fingerprint.normalized@ == f,
        qs.len() > 2 ==> r[0].sample_query@ == qs[0].raw_query@,
        qs.len() > 2 ==> r[0].total_duration_us == saturate(total_duration(qs)),
        qs.len() > 2 && total_duration(qs) <= u64::MAX ==> r[0].total_duration_us == total_duration(qs),
        qs.len() <= 2 ==> r.len() == 0,
{
    lemma_uniform_duration(qs, f);
    assert forall|k: int| 0 <= k < r.len() implies (#[trigger] r[k]).fingerprint.normalized@ == f by {
        assert(n_plus_one_ok(r[k], qs));
        lemma_uniform_count(qs, f, r[k].fingerprint.normalized@);
    }
    if r.len() > 1 {
        assert(r[0].fingerprint.normalized@ == f && r[1].fingerprint.normalized@ == f);
    }
    lemma_uniform_count(qs, f, f);
    if qs.len() > 2 {
        let k = choose|k: int| 0 <= k < r.len() && #[trigger] r[k].fingerprint.normalized@ == f;
        assert(n_plus_one_ok(r[0], qs));
        let j = choose|j: int|
            0 <= j < qs.len() && is_select_with(#[trigger] qs[j], f) && qs[j].raw_query@ == r[0].sample_query@
                && forall|k: int| 0 <= k < j ==> !is_select_with(#[trigger] qs[k], f);
        if j > 0 {
            assert(is_select_with(qs[0], f));
        }
    } else if r.len() > 0 {
        assert(n_plus_one_ok(r[0], qs));
    }
}

} // verus!

verus! {

impl NPlusOneIssue {
    /// A field-by-field copy.
    pub fn duplicate(&self) -> (r: NPlusOneIssue)
        ensures
            r.fingerprint == self.fingerprint,
            r.count == self.count,
            r.total_duration_us == self.total_duration_us,
            r.sample_query == self.sample_query,
            r.suggestion == self.suggestion,
    {
        NPlusOneIssue {
            fingerprint: QueryFingerprint { normalized: self.fingerprint.normalized.clone() },
            count: self.count,
            total_duration_us: self.total_duration_us,
            sample_query: self.sample_query.clone(),
            suggestion: self.suggestion.clone(),
        }
    }
}

} // verus!

verus! {

pub open spec fn no_char(s: Seq<char>, c: char) -> bool {
    forall|i: int| 0 <= i < s.len() ==> s[i] != c
}

proof fn lemma_placeholder_free(x: Seq<char>, y: Seq<char>)
    requires
        no_char(x, '$'),
    ensures
        placeholder_pass(x + y, false) == x + placeholder_pass(y, false),
    decreases x.len(),
{
    if x.len() == 0 {
        assert(x + y == y);
    } else {
        assert((x + y).drop_first() == x.drop_first() + y);
        assert((x + y)[0] == x[0]);
        lemma_placeholder_free(x.drop_first(), y);
        assert(x == seq![x[0]] + x.drop_first());
    }
}

proof fn lemma_string_free(x: Seq<char>, y: Seq<char>)
    requires
        no_char(x, '\''),
    ensures
        string_pass(x + y, false) == x + string_pass(y, false),
    decreases x.len(),
{
    if x.len() == 0 {
        assert(x + y == y);
    } else {
        assert((x + y).drop_first() == x.drop_first() + y);
        assert((x + y)[0] == x[0]);
        lemma_string_free(x.drop_first(), y);
        assert(x == seq![x[0]] + x.drop_first());
    }
}

proof fn lemma_string_inside(x: Seq<char>, y: Seq<char>)
    requires
        no_char(x, '\''),
    ensures
        string_pass(x + seq!['\''] + y, true) == string_pass(y, false),
    decreases x.len(),
{
    if x.len() == 0 {
        assert(x + seq!['\''] + y == seq!['\''] + y);
        assert((seq!['\''] + y).drop_first() == y);
    } else {
        assert((x + seq!['\''] + y).drop_first() == x.drop_first() + seq!['\''] + y);
        assert((x + seq!['\''] + y)[0] == x[0]);
        lemma_string_inside(x.drop_first(), y);
    }
}

/// The first character of the fingerprint passes over `q` is `q[0]` or `?`.
proof fn lemma_passes_head(q: Seq<char>)
    requires
        q.len() > 0,
    ensures
        string_pass(placeholder_pass(q, false), false).len() > 0,
        string_pass(placeholder_pass(q, false), false)[0] == q[0] || string_pass(placeholder_pass(q, false), false)[0] == '?',
{
    let a = placeholder_pass(q, false);
    assert(a.len() > 0 && (a[0] == q[0] || a[0] == '?'));
}

proof fn lemma_digits_skipped(d: Seq<char>, r: Seq<char>)
    requires
        crate::text::all_digits(d),
        r.len() == 0 || !is_digit(r[0]),
    ensures
        number_pass(d + r, true, true) == number_pass(r, true, true),
    decreases d.len(),
{
    if d.len() == 0 {
        assert(d + r == r);
    } else {
        assert((d + r).drop_first() == d.drop_first() + r);
        assert((d + r)[0] == d[0]);
        lemma_digits_skipped(d.drop_first(), r);
    }
}

proof fn lemma_run_closed(d: Seq<char>, r: Seq<char>)
    requires
        crate::text::all_digits(d),
        r.len() == 0 || !is_word(r[0]),
    ensures
        digit_run_closed(d + r),
    decreases d.len(),
{
    if d.len() == 0 {
        assert(d + r == r);
    } else {
        assert((d + r).drop_first() == d.drop_first() + r);
        assert((d + r)[0] == d[0]);
        lemma_run_closed(d.drop_first(), r);
    }
}

proof fn lemma_run_closed_prefix(x: Seq<char>, y: Seq<char>)
    requires
        x.len() > 0,
        !is_digit(x.last()),
    ensures
        digit_run_closed(x + y) == digit_run_closed(x),
    decreases x.len(),
{
    assert((x + y)[0] == x[0]);
    if x.len() > 1 {
        assert((x + y).drop_first() == x.drop_first() + y);
        assert(x.drop_first().last() == x.last());
        lemma_run_closed_prefix(x.drop_first(), y);
    }
}

/// The number pass reads a number after `x` alike whatever its digits.
proof fn lemma_number_same(x: Seq<char>, d1: Seq<char>, d2: Seq<char>, r: Seq<char>, after_word: bool, skipping: bool)
    requires
        d1.len() > 0 && d2.len() > 0,
        crate::text::all_digits(d1),
        crate::text::all_digits(d2),
        r.len() == 0 || !is_word(r[0]),
        x.len() > 0 ==> !is_word(x.last()),
        x.len() == 0 ==> !after_word,
    ensures
        number_pass(x + d1 + r, after_word, skipping) == number_pass(x + d2 + r, after_word, skipping),
    decreases x.len(),
{
    if x.len() == 0 {
        assert(x + d1 + r == d1 + r);
        assert(x + d2 + r == d2 + r);
        lemma_run_closed(d1, r);
        lemma_run_closed(d2, r);
        assert((d1 + r).drop_first() == d1.drop_first() + r);
        assert((d2 + r).drop_first() == d2.drop_first() + r);
        assert((d1 + r)[0] == d1[0]);
        assert((d2 + r)[0] == d2[0]);
        assert(crate::text::all_digits(d1.drop_first()));
        assert(crate::text::all_digits(d2.drop_first()));
        lemma_digits_skipped(d1.drop_first(), r);
        lemma_digits_skipped(d2.drop_first(), r);
    } else {
        let a = x + d1 + r;
        let b = x + d2 + r;
        assert(a[0] == x[0] && b[0] == x[0]);
        assert(a.drop_first() == x.drop_first() + d1 + r);
        assert(b.drop_first() == x.drop_first() + d2 + r);
        if is_digit(x[0]) {
            assert(x.len() > 1) by {
                if x.len() == 1 {
                    assert(x.last() == x[0]);
                }
            }
            lemma_run_closed_prefix(x, d1 + r);
            lemma_run_closed_prefix(x, d2 + r);
            assert(a == x + (d1 + r));
            assert(b == x + (d2 + r));
        }
        if x.len() > 1 {
            assert(x.drop_first().last() == x.last());
        } else {
            assert(x.last() == x[0]);
        }
        lemma_number_same(x.drop_first(), d1, d2, r, is_word(x[0]), false);
        if x.len() > 1 {
            lemma_number_same(x.drop_first(), d1, d2, r, true, true);
        }
    }
}

/// Two queries that differ only in one number literal, standing as a word of
/// its own outside quotes and placeholders, have the same fingerprint.
pub proof fn fingerprint_ignores_number(p: Seq<char>, d1: Seq<char>, d2: Seq<char>, q: Seq<char>)
    requires
        d1.len() > 0 && d2.len() > 0,
        crate::text::all_digits(d1),
        crate::text::all_digits(d2),
        no_char(p, '$'),
        no_char(p, '\''),
        p.len() > 0 ==> !is_word(p.last()),
        q.len() > 0 ==> !is_word(q[0]),
    ensures
        fingerprint_of(p + d1 + q) == fingerprint_of(p + d2 + q),
{
    let r = string_pass(placeholder_pass(q, false), false);
    if q.len() > 0 {
        lemma_passes_head(q);
    } else {
        assert(r.len() == 0);
    }
    assert forall|d: Seq<char>| crate::text::all_digits(d) implies string_pass(
        placeholder_pass(p + d + q, false),
        false,
    ) == p + d + r by {
        assert(no_char(p + d, '$'));
        assert(no_char(p + d, '\''));
        assert(p + d + q == (p + d) + q);
        lemma_placeholder_free(p + d, q);
        lemma_string_free(p + d, placeholder_pass(q, false));
    }
    lemma_number_same(p, d1, d2, r, false, false);
}

/// Two queries that differ only in one single-quoted string literal, outside
/// other quotes and placeholders, have the same fingerprint.
pub proof fn fingerprint_ignores_string(p: Seq<char>, s1: Seq<char>, s2: Seq<char>, q: Seq<char>)
    requires
        no_char(p, '$'),
        no_char(p, '\''),
        no_char(s1, '$') && no_char(s1, '\''),
        no_char(s2, '$') && no_char(s2, '\''),
    ensures
        fingerprint_of(p + seq!['\''] + s1 + seq!['\''] + q) == fingerprint_of(p + seq!['\''] + s2 + seq!['\''] + q),
{
    assert forall|s: Seq<char>| no_char(s, '$') && no_char(s, '\'') implies string_pass(
        placeholder_pass(p + seq!['\''] + s + seq!['\''] + q, false),
        false,
    ) == p + seq!['?'] + string_pass(placeholder_pass(q, false), false) by {
        let head = p + seq!['\''] + s + seq!['\''];
        assert(no_char(head, '$'));
        assert(p + seq!['\''] + s + seq!['\''] + q == head + q);
        lemma_placeholder_free(head, q);
        let rest = seq!['\''] + s + seq!['\''] + placeholder_pass(q, false);
        assert(head + placeholder_pass(q, false) == p + rest);
        lemma_string_free(p, rest);
        assert(rest[0] == '\'');
        assert(rest.drop_first() == s + seq!['\''] + placeholder_pass(q, false));
        assert(rest.drop_first()[s.len() as int] == '\'');
        lemma_string_inside(s, placeholder_pass(q, false));
    }
}

} // verus!

verus! {

#[derive(Debug, Clone, Copy, PartialEq, Eq, Structural)]
pub enum PerformanceIssue {
    SelectStar,
    NoIndex,
    LargeResultSet,
    SlowQuery,
}

#[derive(Debug, Clone, Copy, PartialEq, Eq, Structural)]
pub enum Severity {
    Low,
    Medium,
    High,
    Critical,
}

/// Advice on one query.
#[derive(Debug, Clone)]
pub struct QueryRecommendation {
    pub issue_type: PerformanceIssue,
    pub severity: Severity,
    pub message: String,
    pub suggestion: String,
    pub migration_code: Option<String>,
}

pub open spec fn char_is(s: Seq<char>, i: int, c: char) -> bool {
    0 <= i < s.len() && s[i] == c
}

/// Past an optional `"` at `i`.
pub open spec fn skip_quote(s: Seq<char>, i: int) -> int {
    if char_is(s, i, '"') {
        i + 1
    } else {
        i
    }
}

/// At `i`: `WHERE`, whitespace, then `table.column =` with optional double
/// quotes around each name; the bounds of both names.
pub open spec fn where_column_at(s: Seq<char>, i: int) -> Option<(int, int, int, int)> {
    let a = space_run(s, i + 5);
    let b = skip_quote(s, a);
    let te = word_run(s, b);
    let c = skip_quote(s, te);
    let d = skip_quote(s, c + 1);
    let ce = word_run(s, d);
    let f = space_run(s, skip_quote(s, ce));
    if occurs_at(s, seq!['W', 'H', 'E', 'R', 'E'], i) && a > i + 5 && te > b && char_is(s, c, '.') && ce > d
        && char_is(s, f, '=') {
        Some((b, te, d, ce))
    } else {
        None
    }
}

pub open spec fn where_column_from(s: Seq<char>, i: int) -> Option<(int, int, int, int)>
    decreases s.len() + 1 - i,
{
    if i < 0 || i > s.len() {
        None
    } else {
        match where_column_at(s, i) {
            Some(r) => Some(r),
            None => where_column_from(s, i + 1),
        }
    }
}

/// The migration advice for an index on the first `WHERE table.column =`.
pub open spec fn index_advice(s: Seq<char>) -> Option<Seq<char>> {
    match where_column_from(s, 0) {
        Some((b, te, d, ce)) => {
            let t = s.subrange(b, te);
            let col = s.subrange(d, ce);
            Some(
                "# Add to migration:\nadd_index :"@ + t + ", :"@ + col + "\n\n# Or generate:\nrails g migration AddIndexTo"@
                    + seq![crate::text::upper_char(t[0])] + t.drop_first() + " "@ + col + ":index"@,
            )
        },
        None => None,
    }
}

fn skip_quote_exec(s: &[char], i: usize) -> (r: usize)
    requires
        i <= s@.len(),
    ensures
        r as int == skip_quote(s@, i as int),
        r <= s@.len(),
{
    if i < s.len() && s[i] == '"' {
        i + 1
    } else {
        i
    }
}

fn where_column_at_exec(s: &[char], i: usize) -> (r: Option<(usize, usize, usize, usize)>)
    requires
        i <= s@.len(),
    ensures
        match r {
            Some((b, te, d, ce)) => where_column_at(s@, i as int) == Some((b as int, te as int, d as int, ce as int))
                && b < te <= s@.len() && d < ce <= s@.len(),
            None => where_column_at(s@, i as int) is None,
        },
{
    let w = ['W', 'H', 'E', 'R', 'E'];
    assert(w@ == seq!['W', 'H', 'E', 'R', 'E']);
    proof { crate::text::lemma_slice_len_fits(s); }
    if !crate::text::matches_at(s, &w, i) {
        return None;
    }
    let a = space_run_exec(s, i + 5);
    let b = skip_quote_exec(s, a);
    let te = word_run_exec(s, b);
    let c = skip_quote_exec(s, te);
    if !(a > i + 5 && te > b && c < s.len() && s[c] == '.') {
        return None;
    }
    let d = skip_quote_exec(s, c + 1);
    let ce = word_run_exec(s, d);
    let f = space_run_exec(s, skip_quote_exec(s, ce));
    if ce > d && f < s.len() && s[f] == '=' {
        Some((b, te, d, ce))
    } else {
        None
    }
}

fn index_advice_exec(s: &[char]) -> (r: Option<String>)
    ensures
        match r {
            Some(m) => index_advice(s@) == Some(m@),
            None => index_advice(s@) is None,
        },
{
    let mut i: usize = 0;
    while i <= s.len()
        invariant
            i <= s@.len() + 1,
            where_column_from(s@, 0) == where_column_from(s@, i as int),
        decreases s.len() + 1 - i,
    {
        match where_column_at_exec(s, i) {
            Some((b, te, d, ce)) => {
                let t = slice_vec(s, b, te);
                let col = slice_vec(s, d, ce);
                let mut out: Vec<char> = Vec::new();
                push_str(&mut out, "# Add to migration:\nadd_index :");
                push_all(&mut out, &t);
                push_str(&mut out, ", :");
                push_all(&mut out, &col);
                push_str(&mut out, "\n\n# Or generate:\nrails g migration AddIndexTo");
                out.push(crate::text::char_upper(t[0]));
                let n = t.len();
                let rest = slice_vec(&t, 1, n);
                assert(rest@ == t@.drop_first());
                push_all(&mut out, &rest);
                push_str(&mut out, " ");
                push_all(&mut out, &col);
                push_str(&mut out, ":index");
                return Some(string_of(&out));
            },
            None => {},
        }
        if i == s.len() {
            assert(where_column_from(s@, i + 1) is None);
            return None;
        }
        i += 1;
    }
    None
}

/// The kind and severity of each recommendation for a query with text `q`,
/// `d` microseconds long, that returned `rows` rows.
pub open spec fn recommendation_kinds(q: Seq<char>, d: u64, rows: Option<usize>) -> Seq<(PerformanceIssue, Severity)> {
    (if contains(q, "SELECT *"@) {
        seq![(PerformanceIssue::SelectStar, Severity::Medium)]
    } else {
        Seq::empty()
    }) + (if d > 100_000 {
        seq![
            (PerformanceIssue::SlowQuery, if d > 1_000_000 {
                Severity::Critical
            } else if d > 500_000 {
                Severity::High
            } else {
                Severity::Medium
            }),
        ]
    } else {
        Seq::empty()
    }) + (match rows {
        Some(n) => if n > 100 {
            seq![(PerformanceIssue::LargeResultSet, if n > 1000 { Severity::High } else { Severity::Medium })]
        } else {
            Seq::empty()
        },
        None => Seq::empty(),
    })
}

pub open spec fn recommendation_kind(r: QueryRecommendation) -> (PerformanceIssue, Severity) {
    (r.issue_type, r.severity)
}

/// Advises on single queries.
pub struct QueryAnalyzer;

impl QueryAnalyzer {
    /// Recommendations for `SELECT *`, slowness and large results, in that order.
    /// The slowness advice carries index migration code when the query filters
    /// on `table.column =`.
    pub fn analyze(query: &QueryInfo) -> (r: Vec<QueryRecommendation>)
        ensures
            r@.map_values(|x: QueryRecommendation| recommendation_kind(x)) == recommendation_kinds(
                query.raw_query@,
                query.duration_us,
                query.rows,
            ),
            forall|k: int|
                0 <= k < r@.len() && (#[trigger] r@[k]).issue_type == PerformanceIssue::SlowQuery ==> match index_advice(
                    query.raw_query@,
                ) {
                    Some(m) => r@[k].migration_code matches Some(c) && c@ == m,
                    None => r@[k].migration_code is None,
                },
    {
        let q = chars_of(query.raw_query.as_str());
        let mut recs: Vec<QueryRecommendation> = Vec::new();
        let star = chars_of("SELECT *");
        if crate::text::has(&q, &star) {
            recs.push(QueryRecommendation {
                issue_type: PerformanceIssue::SelectStar,
                severity: Severity::Medium,
                message: "Using SELECT * is inefficient".to_owned(),
                suggestion: "Specify only the columns you need".to_owned(),
                migration_code: None,
            });
        }
        let ghost first = recs@.map_values(|x: QueryRecommendation| recommendation_kind(x));
        let d = query.duration_us;
        if d > 100_000 {
            let mut m: Vec<char> = Vec::new();
            push_str(&mut m, "Slow query: ");
            let tenths = d / 100 + if d % 100 >= 50 { 1 } else { 0 };
            push_decimal(&mut m, tenths / 10);
            m.push('.');
            push_decimal(&mut m, tenths % 10);
            push_str(&mut m, "ms");
            let severity = if d > 1_000_000 {
                Severity::Critical
            } else if d > 500_000 {
                Severity::High
            } else {
                Severity::Medium
            };
            recs.push(QueryRecommendation {
                issue_type: PerformanceIssue::SlowQuery,
                severity,
                message: string_of(&m),
                suggestion: "Consider adding indexes or optimizing the query".to_owned(),
                migration_code: index_advice_exec(&q),
            });
        }
        let ghost second = recs@.map_values(|x: QueryRecommendation| recommendation_kind(x));
        match query.rows {
            Some(n) => {
                if n > 100 {
                    let mut m: Vec<char> = Vec::new();
                    push_str(&mut m, "Large result set: ");
                    push_decimal(&mut m, n as u64);
                    push_str(&mut m, " rows");
                    recs.push(QueryRecommendation {
                        issue_type: PerformanceIssue::LargeResultSet,
                        severity: if n > 1000 { Severity::High } else { Severity::Medium },
                        message: string_of(&m),
                        suggestion: "Consider using pagination (limit/offset) or find_each".to_owned(),
                        migration_code: None,
                    });
                }
            },
            None => {},
        }
        assert(recs@.map_values(|x: QueryRecommendation| recommendation_kind(x)) =~= recommendation_kinds(
            query.raw_query@,
            query.duration_us,
            query.rows,
        ));
        recs
    }
}

} // verus!

verus! {

proof fn lemma_placeholder_skip(d: Seq<char>, q: Seq<char>)
    requires
        crate::text::all_digits(d),
    ensures
        placeholder_pass(d + q, true) == placeholder_pass(q, true),
    decreases d.len(),
{
    if d.len() == 0 {
        assert(d + q == q);
    } else {
        assert((d + q).drop_first() == d.drop_first() + q);
        assert((d + q)[0] == d[0]);
        lemma_placeholder_skip(d.drop_first(), q);
    }
}

/// Two queries that differ only in the number of one positional placeholder
/// (`$1` against `$2`), outside quotes, have the same fingerprint.
pub proof fn fingerprint_ignores_placeholder(p: Seq<char>, d1: Seq<char>, d2: Seq<char>, q: Seq<char>)
    requires
        d1.len() > 0 && d2.len() > 0,
        crate::text::all_digits(d1),
        crate::text::all_digits(d2),
        no_char(p, '$'),
    ensures
        fingerprint_of(p + seq!['$'] + d1 + q) == fingerprint_of(p + seq!['$'] + d2 + q),
{
    assert forall|d: Seq<char>| d.len() > 0 && crate::text::all_digits(d) implies placeholder_pass(
        p + seq!['$'] + d + q,
        false,
    ) == p + seq!['?'] + placeholder_pass(q, true) by {
        let x = seq!['$'] + d + q;
        assert(p + seq!['$'] + d + q == p + x);
        lemma_placeholder_free(p, x);
        assert(x[0] == '$' && x[1] == d[0]);
        assert(x.drop_first() == d + q);
        lemma_placeholder_skip(d, q);
    }
}

} // verus!

verus! {

/// The query made of `parts` with `lits` between them: `parts[0] lits[0]
/// parts[1] lits[1] ... parts[n]`.
pub open spec fn template(parts: Seq<Seq<char>>, lits: Seq<Seq<char>>) -> Seq<char>
    decreases lits.len(),
{
    if parts.len() == 0 {
        Seq::empty()
    } else if lits.len() == 0 {
        parts[0]
    } else {
        parts[0] + lits[0] + template(parts.drop_first(), lits.drop_first())
    }
}

pub open spec fn is_number_literal(l: Seq<char>) -> bool {
    l.len() > 0 && crate::text::all_digits(l)
}

/// A single-quoted string literal without quotes or `$` inside.
pub open spec fn is_string_literal(l: Seq<char>) -> bool {
    &&& l.len() >= 2
    &&& l[0] == '\''
    &&& l.last() == '\''
    &&& no_char(l.subrange(1, l.len() - 1), '\'')
    &&& no_char(l.subrange(1, l.len() - 1), '$')
}

/// `parts` and `lits` make a query in which every literal stands on its own:
/// the parts hold no quotes or `$`, the parts between literals are not empty,
/// and a number literal is not glued to a word.
pub open spec fn literal_template(parts: Seq<Seq<char>>, lits: Seq<Seq<char>>) -> bool {
    &&& parts.len() == lits.len() + 1
    &&& forall|i: int| 0 <= i < parts.len() ==> no_char(#[trigger] parts[i], '$') && no_char(parts[i], '\'')
    &&& forall|i: int| 0 < i < parts.len() - 1 ==> (#[trigger] parts[i]).len() > 0
    &&& forall|i: int| 0 <= i < lits.len() ==> is_number_literal(#[trigger] lits[i]) || is_string_literal(lits[i])
    &&& forall|i: int|
        0 <= i < lits.len() && is_number_literal(#[trigger] lits[i]) ==> (parts[i].len() > 0 ==> !is_word(
            parts[i].last(),
        )) && (parts[i + 1].len() > 0 ==> !is_word(parts[i + 1][0]))
}

/// `lits` with every string literal written as `?`.
pub open spec fn masked(lits: Seq<Seq<char>>) -> Seq<Seq<char>> {
    lits.map_values(|l: Seq<char>| if is_string_literal(l) { seq!['?'] } else { l })
}

proof fn lemma_template_no_dollar(parts: Seq<Seq<char>>, lits: Seq<Seq<char>>)
    requires
        parts.len() == lits.len() + 1,
        forall|i: int| 0 <= i < parts.len() ==> no_char(#[trigger] parts[i], '$'),
        forall|i: int| 0 <= i < lits.len() ==> is_number_literal(#[trigger] lits[i]) || is_string_literal(lits[i]),
    ensures
        no_char(template(parts, lits), '$'),
    decreases lits.len(),
{
    if lits.len() > 0 {
        let pd = parts.drop_first();
        let ld = lits.drop_first();
        assert forall|i: int| 0 <= i < pd.len() implies no_char(#[trigger] pd[i], '$') by {
            assert(pd[i] == parts[i + 1]);
        }
        assert forall|i: int| 0 <= i < ld.len() implies is_number_literal(#[trigger] ld[i]) || is_string_literal(ld[i]) by {
            assert(ld[i] == lits[i + 1]);
        }
        lemma_template_no_dollar(pd, ld);
        assert(no_char(parts[0], '$'));
        let l = lits[0];
        assert(is_number_literal(l) || is_string_literal(l));
        assert(no_char(l, '$')) by {
            if is_string_literal(l) {
                assert forall|k: int| 0 <= k < l.len() implies l[k] != '$' by {
                    if 0 < k < l.len() - 1 {
                        assert(l.subrange(1, l.len() - 1)[k - 1] == l[k]);
                    }
                }
            }
        }
        let t = parts[0] + l + template(pd, ld);
        assert forall|k: int| 0 <= k < t.len() implies t[k] != '$' by {
            if k < parts[0].len() {
                assert(t[k] == parts[0][k]);
            } else if k < parts[0].len() + l.len() {
                assert(t[k] == l[k - parts[0].len()]);
            } else {
                assert(t[k] == template(pd, ld)[k - parts[0].len() - l.len()]);
            }
        }
    }
}

proof fn lemma_template_strings(parts: Seq<Seq<char>>, lits: Seq<Seq<char>>)
    requires
        parts.len() == lits.len() + 1,
        forall|i: int| 0 <= i < parts.len() ==> no_char(#[trigger] parts[i], '\''),
        forall|i: int| 0 <= i < lits.len() ==> is_number_literal(#[trigger] lits[i]) || is_string_literal(lits[i]),
    ensures
        string_pass(template(parts, lits), false) == template(parts, masked(lits)),
    decreases lits.len(),
{
    let m = masked(lits);
    if lits.len() == 0 {
        assert(no_char(parts[0], '\''));
        lemma_string_free(parts[0], Seq::empty());
        assert(parts[0] + Seq::<char>::empty() == parts[0]);
        assert(string_pass(Seq::<char>::empty(), false) == Seq::<char>::empty());
    } else {
        let pd = parts.drop_first();
        let ld = lits.drop_first();
        assert forall|i: int| 0 <= i < pd.len() implies no_char(#[trigger] pd[i], '\'') by {
            assert(pd[i] == parts[i + 1]);
        }
        assert forall|i: int| 0 <= i < ld.len() implies is_number_literal(#[trigger] ld[i]) || is_string_literal(ld[i]) by {
            assert(ld[i] == lits[i + 1]);
        }
        lemma_template_strings(pd, ld);
        assert(masked(ld) == m.drop_first());
        let rest = template(pd, ld);
        let l = lits[0];
        assert(no_char(parts[0], '\''));
        assert(parts[0] + l + rest == parts[0] + (l + rest));
        lemma_string_free(parts[0], l + rest);
        if is_string_literal(l) {
            let inner = l.subrange(1, l.len() - 1);
            assert(l == seq!['\''] + inner + seq!['\'']);
            assert(l + rest == seq!['\''] + (inner + seq!['\''] + rest));
            let y = l + rest;
            assert(y[0] == '\'');
            assert(y.drop_first() == inner + seq!['\''] + rest);
            assert(y.drop_first()[inner.len() as int] == '\'');
            assert(y.drop_first().contains('\''));
            lemma_string_inside(inner, rest);
            assert(m[0] == seq!['?']);
        } else {
            assert(no_char(l, '\'')) by {
                assert forall|k: int| 0 <= k < l.len() implies l[k] != '\'' by {
                    assert(is_digit(l[k]));
                }
            }
            lemma_string_free(l, rest);
            assert(m[0] == l);
        }
        assert(template(parts, m) == parts[0] + m[0] + template(pd, m.drop_first()));
    }
}

/// The number pass reads two masked templates alike when they differ only in
/// number literals, after any prefix `x` that does not end in a word glued to
/// the first literal.
proof fn lemma_template_numbers(x: Seq<char>, parts: Seq<Seq<char>>, m1: Seq<Seq<char>>, m2: Seq<Seq<char>>)
    requires
        parts.len() == m1.len() + 1,
        m1.len() == m2.len(),
        forall|i: int| 0 < i < parts.len() - 1 ==> (#[trigger] parts[i]).len() > 0,
        forall|i: int|
            0 <= i < m1.len() ==> (#[trigger] m1[i] == m2[i] && m1[i] == seq!['?']) || (is_number_literal(m1[i])
                && is_number_literal(m2[i]) && (parts[i].len() > 0 ==> !is_word(parts[i].last())) && (parts[i
                + 1].len() > 0 ==> !is_word(parts[i + 1][0]))),
        m1.len() > 0 && parts[0].len() == 0 ==> x.len() == 0 || !is_word(x.last()),
    ensures
        number_pass(x + template(parts, m1), false, false) == number_pass(x + template(parts, m2), false, false),
    decreases m1.len(),
{
    if m1.len() == 0 {
        return;
    }
    let pd = parts.drop_first();
    let d1 = m1.drop_first();
    let d2 = m2.drop_first();
    assert forall|i: int| 0 < i < pd.len() - 1 implies (#[trigger] pd[i]).len() > 0 by {
        assert(pd[i] == parts[i + 1]);
    }
    assert forall|i: int|
        0 <= i < d1.len() implies (#[trigger] d1[i] == d2[i] && d1[i] == seq!['?']) || (is_number_literal(d1[i])
            && is_number_literal(d2[i]) && (pd[i].len() > 0 ==> !is_word(pd[i].last())) && (pd[i + 1].len() > 0
            ==> !is_word(pd[i + 1][0]))) by {
        assert(d1[i] == m1[i + 1] && d2[i] == m2[i + 1] && pd[i] == parts[i + 1] && pd[i + 1] == parts[i + 2]);
    }
    let r1 = template(pd, d1);
    let r2 = template(pd, d2);
    let xp = x + parts[0];
    assert(x + template(parts, m1) == xp + m1[0] + r1);
    assert(x + template(parts, m2) == xp + m2[0] + r2);
    let a = m1[0];
    let b = m2[0];
    if a == b {
        let x2 = xp + a;
        assert(xp + a + r1 == x2 + r1);
        assert(xp + a + r2 == x2 + r2);
        if d1.len() > 0 && pd[0].len() == 0 {
            assert(a == seq!['?'] || is_number_literal(a));
            assert(x2.last() == a.last());
            if is_number_literal(a) {
                assert(pd.len() > 1);
                assert(parts[1].len() > 0);
            }
        }
        lemma_template_numbers(x2, pd, d1, d2);
    } else {
        assert(is_number_literal(a) && is_number_literal(b));
        if xp.len() > 0 {
            if parts[0].len() > 0 {
                assert(xp.last() == parts[0].last());
            } else {
                assert(xp == x);
            }
        }
        assert(r1.len() > 0 ==> !is_word(r1[0])) by {
            if r1.len() > 0 {
                if d1.len() > 0 {
                    assert(pd.len() > 1);
                    assert(parts[1].len() > 0);
                    assert(r1 == pd[0] + d1[0] + template(pd.drop_first(), d1.drop_first()));
                    assert(r1[0] == pd[0][0]);
                } else {
                    assert(r1 == pd[0]);
                }
            }
        }
        lemma_number_same(xp, a, b, r1, false, false);
        let x2 = xp + b;
        assert(xp + b + r1 == x2 + r1);
        assert(xp + b + r2 == x2 + r2);
        if d1.len() > 0 && pd[0].len() == 0 {
            assert(pd.len() > 1);
            assert(parts[1].len() > 0);
        }
        lemma_template_numbers(x2, pd, d1, d2);
    }
}

/// Two queries built on the same parts whose literals differ only in their
/// values (each number against a number, each string against a string, in
/// any number and mix) have the same fingerprint.
pub proof fn fingerprint_ignores_literals(parts: Seq<Seq<char>>, lits1: Seq<Seq<char>>, lits2: Seq<Seq<char>>)
    requires
        literal_template(parts, lits1),
        literal_template(parts, lits2),
        forall|i: int| 0 <= i < lits1.len() ==> (is_number_literal(#[trigger] lits1[i]) <==> is_number_literal(lits2[i])),
    ensures
        fingerprint_of(template(parts, lits1)) == fingerprint_of(template(parts, lits2)),
{
    lemma_template_no_dollar(parts, lits1);
    lemma_template_no_dollar(parts, lits2);
    lemma_placeholder_free(template(parts, lits1), Seq::empty());
    lemma_placeholder_free(template(parts, lits2), Seq::empty());
    assert(template(parts, lits1) + Seq::<char>::empty() == template(parts, lits1));
    assert(template(parts, lits2) + Seq::<char>::empty() == template(parts, lits2));
    assert(placeholder_pass(Seq::<char>::empty(), false) == Seq::<char>::empty());
    lemma_template_strings(parts, lits1);
    lemma_template_strings(parts, lits2);
    let m1 = masked(lits1);
    let m2 = masked(lits2);
    assert forall|i: int|
        0 <= i < m1.len() implies (#[trigger] m1[i] == m2[i] && m1[i] == seq!['?']) || (is_number_literal(m1[i])
            && is_number_literal(m2[i]) && (parts[i].len() > 0 ==> !is_word(parts[i].last())) && (parts[i
            + 1].len() > 0 ==> !is_word(parts[i + 1][0]))) by {
        assert(is_number_literal(lits1[i]) || is_string_literal(lits1[i]));
        assert(is_number_literal(lits2[i]) || is_string_literal(lits2[i]));
        if is_number_literal(lits1[i]) {
            assert(!is_string_literal(lits1[i])) by {
                if is_string_literal(lits1[i]) {
                    assert(is_digit(lits1[i][0]));
                }
            }
            assert(!is_string_literal(lits2[i])) by {
                if is_string_literal(lits2[i]) {
                    assert(is_digit(lits2[i][0]));
                }
            }
        } else {
            assert(!is_number_literal(lits2[i]));
        }
    }
    lemma_template_numbers(Seq::empty(), parts, m1, m2);
    assert(Seq::<char>::empty() + template(parts, m1) == template(parts, m1));
    assert(Seq::<char>::empty() + template(parts, m2) == template(parts, m2));
}

} // verus!
