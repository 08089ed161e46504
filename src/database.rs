//! Database health: slow-query history, table access counts with a bounded
//! table set, derived issues and a 0-100 score.
use vstd::prelude::*;
use crate::rank::{is_permutation, rank_desc, ranked_by};
use crate::text::{
    push_decimal, push_str,
    as_int, chars_of, char_is_space, contains, find_in, has, index_of, is_space, same_chars, slice_vec,
    string_of, to_upper, trim_start, trim_start_index, upper_seq,
};

verus! {

// ---------------------------------------------------------------------------
// Table names
// ---------------------------------------------------------------------------

/// The index after the run of non-whitespace characters from `i`.
pub open spec fn token_end(s: Seq<char>, i: int) -> int
    decreases s.len() - i,
{
    if 0 <= i < s.len() && !is_space(s[i]) {
        token_end(s, i + 1)
    } else {
        i
    }
}

/// The first whitespace-separated word of `s`.
pub open spec fn first_token(s: Seq<char>) -> Option<Seq<char>> {
    let t = trim_start(s);
    if t.len() == 0 {
        None
    } else {
        Some(t.take(token_end(t, 0)))
    }
}

pub open spec fn strip_start_char(s: Seq<char>, c: char) -> Seq<char>
    decreases s.len(),
{
    if s.len() > 0 && s[0] == c {
        strip_start_char(s.drop_first(), c)
    } else {
        s
    }
}

pub open spec fn strip_end_char(s: Seq<char>, c: char) -> Seq<char>
    decreases s.len(),
{
    if s.len() > 0 && s.last() == c {
        strip_end_char(s.drop_last(), c)
    } else {
        s
    }
}

/// `s` without the `"` and then the `` ` `` characters around it.
pub open spec fn unquote(s: Seq<char>) -> Seq<char> {
    let a = strip_end_char(strip_start_char(s, '"'), '"');
    strip_end_char(strip_start_char(a, '`'), '`')
}

/// The table named after the keyword found at `pos`, which is `len` long.
pub open spec fn table_after(q: Seq<char>, pos: int, len: int) -> Option<Seq<char>> {
    match first_token(q.skip(pos + len)) {
        Some(t) => Some(unquote(t)),
        None => None,
    }
}

/// The table a query reads or writes: the word after the first ` FROM `,
/// else after the first `UPDATE `, else after the first `INSERT INTO `,
/// the keywords found without regard to case.
pub open spec fn table_of(q: Seq<char>) -> Option<Seq<char>> {
    let u = upper_seq(q);
    match index_of(u, seq![' ', 'F', 'R', 'O', 'M', ' '], 0) {
        Some(p) => table_after(q, p, 6),
        None => match index_of(u, seq!['U', 'P', 'D', 'A', 'T', 'E', ' '], 0) {
            Some(p) => table_after(q, p, 7),
            None => match index_of(u, seq!['I', 'N', 'S', 'E', 'R', 'T', ' ', 'I', 'N', 'T', 'O', ' '], 0) {
                Some(p) => table_after(q, p, 12),
                None => None,
            },
        },
    }
}

fn token_end_exec(s: &[char], i: usize) -> (r: usize)
    requires
        i <= s.len(),
    ensures
        r as int == token_end(s@, i as int),
        i <= r <= s.len(),
    decreases s.len() - i,
{
    if i < s.len() && !char_is_space(s[i]) {
        token_end_exec(s, i + 1)
    } else {
        i
    }
}

fn unquote_exec(s: &[char]) -> (r: Vec<char>)
    ensures
        r@ == unquote(s@),
{
    let a = strip_char(s, '"');
    strip_char(&a, '`')
}

fn strip_char(s: &[char], c: char) -> (r: Vec<char>)
    ensures
        r@ == strip_end_char(strip_start_char(s@, c), c),
{
    let mut lo: usize = 0;
    assert(s@.subrange(0, s@.len() as int) == s@);
    while lo < s.len() && s[lo] == c
        invariant
            lo <= s@.len(),
            strip_start_char(s@, c) == strip_start_char(s@.subrange(lo as int, s@.len() as int), c),
        decreases s.len() - lo,
    {
        assert(s@.subrange(lo as int, s@.len() as int).drop_first() == s@.subrange(lo + 1, s@.len() as int));
        lo += 1;
    }
    let mut hi: usize = s.len();
    while hi > lo && s[hi - 1] == c
        invariant
            lo <= hi <= s@.len(),
            strip_end_char(strip_start_char(s@, c), c) == strip_end_char(s@.subrange(lo as int, hi as int), c),
        decreases hi,
    {
        assert(s@.subrange(lo as int, hi as int).drop_last() == s@.subrange(lo as int, hi - 1));
        hi -= 1;
    }
    slice_vec(s, lo, hi)
}

fn table_after_exec(q: &[char], pos: usize, len: usize) -> (r: Option<Vec<char>>)
    requires
        pos + len <= q.len(),
    ensures
        match r {
            Some(t) => table_after(q@, pos as int, len as int) == Some(t@),
            None => table_after(q@, pos as int, len as int) is None,
        },
{
    let n = q.len();
    let rest = slice_vec(q, pos + len, n);
    assert(rest@ == q@.skip(pos + len));
    let lo = trim_start_index(&rest);
    let t = slice_vec(&rest, lo, rest.len());
    if t.len() == 0 {
        return None;
    }
    let e = token_end_exec(&t, 0);
    let word = slice_vec(&t, 0, e);
    assert(word@ == t@.take(e as int));
    Some(unquote_exec(&word))
}

/// The table a query names, as in `table_of`.
pub fn extract_table_name(query: &[char]) -> (r: Option<Vec<char>>)
    ensures
        match r {
            Some(t) => table_of(query@) == Some(t@),
            None => table_of(query@) is None,
        },
{
    let u = to_upper(query);
    let from = [' ', 'F', 'R', 'O', 'M', ' '];
    let update = ['U', 'P', 'D', 'A', 'T', 'E', ' '];
    let insert = ['I', 'N', 'S', 'E', 'R', 'T', ' ', 'I', 'N', 'T', 'O', ' '];
    assert(from@ == seq![' ', 'F', 'R', 'O', 'M', ' ']);
    assert(update@ == seq!['U', 'P', 'D', 'A', 'T', 'E', ' ']);
    assert(insert@ == seq!['I', 'N', 'S', 'E', 'R', 'T', ' ', 'I', 'N', 'T', 'O', ' ']);
    match find_in(&u, &from, 0) {
        Some(p) => table_after_exec(query, p, 6),
        None => match find_in(&u, &update, 0) {
            Some(p) => table_after_exec(query, p, 7),
            None => match find_in(&u, &insert, 0) {
                Some(p) => table_after_exec(query, p, 12),
                None => None,
            },
        },
    }
}

} // verus!

verus! {

pub const MAX_TABLES_TRACKED: usize = 100;

pub const TABLES_WARNING_THRESHOLD: usize = 90;

pub const MAX_SLOW_QUERIES: usize = 50;

/// A query slower than this many microseconds is slow.
pub const SLOW_QUERY_US: u64 = 100_000;

/// A query with `WHERE` slower than this many microseconds hints at a missing index.
pub const INDEX_HINT_US: u64 = 50_000;

#[derive(Debug, Clone)]
pub struct TableInfo {
    pub name: String,
    pub estimated_rows: usize,
    pub has_primary_key: bool,
    pub indexes: Vec<IndexInfo>,
    pub foreign_keys: Vec<ForeignKeyInfo>,
}

#[derive(Debug, Clone)]
pub struct IndexInfo {
    pub name: String,
    pub columns: Vec<String>,
    pub is_unique: bool,
    pub usage_count: usize,
}

#[derive(Debug, Clone)]
pub struct ForeignKeyInfo {
    pub column: String,
    pub references_table: String,
    pub has_index: bool,
}

/// A distinct slow query. Durations are in microseconds, times in the caller's clock.
#[derive(Debug, Clone)]
pub struct SlowQuery {
    pub query: String,
    pub duration_us: u64,
    pub table: Option<String>,
    pub execution_count: usize,
    pub last_seen: u64,
}

/// How often a table was named by slow queries.
#[derive(Debug, Clone)]
pub struct TableAccess {
    pub name: String,
    pub count: usize,
}

#[derive(Debug, Clone)]
pub struct QueryStats {
    pub total_queries: usize,
    pub slow_queries_count: usize,
    pub select_star_count: usize,
    pub missing_index_hints: usize,
    /// Distinct table names with their access counts, at most a hundred.
    pub tables_accessed: Vec<TableAccess>,
}

impl Default for QueryStats {
    fn default() -> (r: QueryStats)
        ensures
            r.total_queries == 0 && r.slow_queries_count == 0 && r.select_star_count == 0
                && r.missing_index_hints == 0 && r.tables_accessed@.len() == 0,
    {
        QueryStats {
            total_queries: 0,
            slow_queries_count: 0,
            select_star_count: 0,
            missing_index_hints: 0,
            tables_accessed: Vec::new(),
        }
    }
}

/// The index of the first entry for table `t` at or after `i`.
pub open spec fn table_index_from(ts: Seq<TableAccess>, t: Seq<char>, i: int) -> Option<int>
    decreases ts.len() - i,
{
    if i < 0 || i >= ts.len() {
        None
    } else if ts[i].name@ == t {
        Some(i)
    } else {
        table_index_from(ts, t, i + 1)
    }
}

/// The index of the entry for table `t`, if there is one.
pub open spec fn table_index(ts: Seq<TableAccess>, t: Seq<char>) -> Option<int> {
    table_index_from(ts, t, 0)
}

/// The table names of `ts` are distinct.
pub open spec fn distinct_tables(ts: Seq<TableAccess>) -> bool {
    forall|a: int, b: int|
        0 <= a < ts.len() && 0 <= b < ts.len() && a != b ==> #[trigger] ts[a].name@ != #[trigger] ts[b].name@
}

/// `n + 1`, held at the largest `usize`.
pub open spec fn inc(n: usize) -> usize {
    if n < usize::MAX {
        (n + 1) as usize
    } else {
        n
    }
}

/// What counting one access to table `t` does to the table counts: an entry
/// already there counts one more; a new entry starts at one, and when a
/// hundred are tracked the entry with the lowest count is dropped first.
pub open spec fn counts_access(before: Seq<TableAccess>, after: Seq<TableAccess>, t: Seq<char>) -> bool {
    match table_index(before, t) {
        Some(k) => {
            &&& after.len() == before.len()
            &&& after[k].name@ == t
            &&& after[k].count == inc(before[k].count)
            &&& forall|h: int| 0 <= h < after.len() && h != k ==> #[trigger] after[h] == before[h]
        },
        None => {
            &&& after.len() > 0
            &&& after.last().name@ == t
            &&& after.last().count == 1
            &&& if before.len() < MAX_TABLES_TRACKED {
                after.drop_last() == before
            } else {
                exists|m: int|
                    0 <= m < before.len() && (forall|h: int| 0 <= h < before.len() ==> before[m].count <= #[trigger] before[h].count)
                        && after.drop_last() == before.remove(m)
            }
        },
    }
}

/// A notice that the table set is filling up.
#[derive(Debug, Clone, Copy, PartialEq, Eq, Structural)]
pub enum TableWarning {
    /// The set holds this many tables, at least nine tenths of its capacity.
    ApproachingCapacity(usize),
    /// The set was full, and the least accessed table was dropped.
    Evicted,
}

impl QueryStats {
    /// The access count of table `name`.
    pub fn table_count(&self, name: &str) -> (r: Option<usize>)
        ensures
            match table_index(self.tables_accessed@, name@) {
                Some(k) => r == Some(self.tables_accessed@[k].count),
                None => r is None,
            },
    {
        let n = chars_of(name);
        match self.find_table(&n) {
            Some(k) => Some(self.tables_accessed[k].count),
            None => None,
        }
    }

    fn find_table(&self, t: &[char]) -> (r: Option<usize>)
        ensures
            as_int(r) == table_index(self.tables_accessed@, t@),
            match r {
                Some(k) => k < self.tables_accessed@.len() && self.tables_accessed@[k as int].name@ == t@,
                None => forall|h: int| 0 <= h < self.tables_accessed@.len() ==> #[trigger] self.tables_accessed@[h].name@ != t@,
            },
    {
        let mut g: usize = 0;
        while g < self.tables_accessed.len()
            invariant
                g <= self.tables_accessed@.len(),
                table_index(self.tables_accessed@, t@) == table_index_from(self.tables_accessed@, t@, g as int),
                forall|h: int| 0 <= h < g ==> #[trigger] self.tables_accessed@[h].name@ != t@,
            decreases self.tables_accessed.len() - g,
        {
            let f = chars_of(self.tables_accessed[g].name.as_str());
            if same_chars(&f, t) {
                return Some(g);
            }
            g += 1;
        }
        None
    }
}

} // verus!

verus! {

/// Counts one access to table `t`, as `counts_access` says, and tells when
/// the table set is filling up or full.
pub fn count_table_access(ts: &mut Vec<TableAccess>, t: &[char]) -> (r: Option<TableWarning>)
    requires
        distinct_tables(old(ts)@),
        old(ts)@.len() <= MAX_TABLES_TRACKED,
    ensures
        distinct_tables(final(ts)@),
        final(ts)@.len() <= MAX_TABLES_TRACKED,
        counts_access(old(ts)@, final(ts)@, t@),
        r == if table_index(old(ts)@, t@) is Some {
            None
        } else if old(ts)@.len() >= MAX_TABLES_TRACKED {
            Some(TableWarning::Evicted)
        } else if old(ts)@.len() >= TABLES_WARNING_THRESHOLD {
            Some(TableWarning::ApproachingCapacity(old(ts)@.len() as usize))
        } else {
            None
        },
{
    let ghost before = ts@;
    let mut k: usize = 0;
    while k < ts.len()
        invariant
            ts@ == before,
            before == old(ts)@,
            distinct_tables(before),
            before.len() <= MAX_TABLES_TRACKED,
            k <= ts@.len(),
            table_index(before, t@) == table_index_from(before, t@, k as int),
            forall|h: int| 0 <= h < k ==> #[trigger] before[h].name@ != t@,
        decreases ts.len() - k,
    {
        let f = chars_of(ts[k].name.as_str());
        if same_chars(&f, t) {
            assert(before[k as int].name@ == t@);
            assert(table_index(before, t@) == Some(k as int));
            let mut e = ts.remove(k);
            e.count = e.count.saturating_add(1);
            ts.insert(k, e);
            assert(ts@[k as int].name@ == t@);
            assert forall|h: int| 0 <= h < ts@.len() && h != k implies #[trigger] ts@[h] == before[h] by {}
            assert forall|a: int, b: int|
                0 <= a < ts@.len() && 0 <= b < ts@.len() && a != b implies #[trigger] ts@[a].name@ != #[trigger] ts@[b].name@ by {
                assert(ts@[a].name == before[a].name);
                assert(ts@[b].name == before[b].name);
            }
            return None;
        }
        k += 1;
    }
    let mut warning: Option<TableWarning> = None;
    if ts.len() >= MAX_TABLES_TRACKED {
        let mut m: usize = 0;
        let mut j: usize = 1;
        while j < ts.len()
            invariant
                ts@ == before,
                m < j <= ts@.len(),
                forall|h: int| 0 <= h < j ==> before[m as int].count <= #[trigger] before[h].count,
            decreases ts.len() - j,
        {
            if ts[j].count < ts[m].count {
                m = j;
            }
            j += 1;
        }
        ts.remove(m);
        assert(ts@ == before.remove(m as int));
        warning = Some(TableWarning::Evicted);
    } else if ts.len() >= TABLES_WARNING_THRESHOLD {
        warning = Some(TableWarning::ApproachingCapacity(ts.len()));
    }
    let ghost mid = ts@;
    ts.push(TableAccess { name: string_of(t), count: 1 });
    assert(ts@.drop_last() == mid);
    assert forall|a: int, b: int|
        0 <= a < ts@.len() && 0 <= b < ts@.len() && a != b implies #[trigger] ts@[a].name@ != #[trigger] ts@[b].name@ by {
        if a < mid.len() && b < mid.len() {
            if before.len() >= MAX_TABLES_TRACKED {
                let m = choose|m: int| 0 <= m < before.len() && (forall|h: int| 0 <= h < before.len() ==> before[m].count <= #[trigger] before[h].count)
                    && mid == before.remove(m);
                let a0 = if a < m { a } else { a + 1 };
                let b0 = if b < m { b } else { b + 1 };
                assert(mid[a] == before[a0]);
                assert(mid[b] == before[b0]);
            }
        } else if a < mid.len() {
            if before.len() >= MAX_TABLES_TRACKED {
                let m = choose|m: int| 0 <= m < before.len() && (forall|h: int| 0 <= h < before.len() ==> before[m].count <= #[trigger] before[h].count)
                    && mid == before.remove(m);
                let a0 = if a < m { a } else { a + 1 };
                assert(mid[a] == before[a0]);
            }
        } else if b < mid.len() {
            if before.len() >= MAX_TABLES_TRACKED {
                let m = choose|m: int| 0 <= m < before.len() && (forall|h: int| 0 <= h < before.len() ==> before[m].count <= #[trigger] before[h].count)
                    && mid == before.remove(m);
                let b0 = if b < m { b } else { b + 1 };
                assert(mid[b] == before[b0]);
            }
        }
    }
    warning
}

/// The table set never holds more than a hundred tables; a new table arriving
/// when it is full leaves it at a hundred, after dropping an entry whose count
/// was the lowest.
pub proof fn table_set_stays_bounded(before: Seq<TableAccess>, after: Seq<TableAccess>, t: Seq<char>)
    requires
        before.len() <= MAX_TABLES_TRACKED,
        counts_access(before, after, t),
    ensures
        after.len() <= MAX_TABLES_TRACKED,
        before.len() == MAX_TABLES_TRACKED && table_index(before, t) is None ==> {
            &&& after.len() == MAX_TABLES_TRACKED
            &&& exists|m: int|
                0 <= m < before.len() && (forall|h: int| 0 <= h < before.len() ==> before[m].count <= #[trigger] before[h].count)
                    && after.drop_last() == before.remove(m)
        },
{
    match table_index(before, t) {
        Some(k) => {},
        None => {
            assert(after.drop_last().len() == after.len() - 1);
            if before.len() >= MAX_TABLES_TRACKED {
                let m = choose|m: int| 0 <= m < before.len() && (forall|h: int| 0 <= h < before.len() ==> before[m].count <= #[trigger] before[h].count)
                    && after.drop_last() == before.remove(m);
                assert(before.remove(m).len() == before.len() - 1);
            }
        },
    }
}

} // verus!

verus! {

/// `a` and `b` hold the same slow query.
pub open spec fn same_slow(a: SlowQuery, b: SlowQuery) -> bool {
    &&& a.query == b.query
    &&& a.duration_us == b.duration_us
    &&& a.table == b.table
    &&& a.execution_count == b.execution_count
    &&& a.last_seen == b.last_seen
}

/// The index of the first slow query with text `q` at or after `i`.
pub open spec fn slow_index_from(sq: Seq<SlowQuery>, q: Seq<char>, i: int) -> Option<int>
    decreases sq.len() - i,
{
    if i < 0 || i >= sq.len() {
        None
    } else if sq[i].query@ == q {
        Some(i)
    } else {
        slow_index_from(sq, q, i + 1)
    }
}

/// `o` holds the text `t`, or both are absent.
pub open spec fn opt_text(o: Option<String>, t: Option<Seq<char>>) -> bool {
    match (o, t) {
        (Some(s), Some(x)) => s@ == x,
        (None, None) => true,
        _ => false,
    }
}

/// What a slow run of query `q` taking `d` microseconds at `now` does to the
/// slow-query history: a known text counts one more run and keeps its largest
/// duration; a new one is appended, and the oldest entry leaves past fifty.
pub open spec fn records_slow(before: Seq<SlowQuery>, after: Seq<SlowQuery>, q: Seq<char>, d: u64, now: u64) -> bool {
    match slow_index_from(before, q, 0) {
        Some(k) => {
            &&& after.len() == before.len()
            &&& after[k].query == before[k].query
            &&& after[k].table == before[k].table
            &&& after[k].execution_count == inc(before[k].execution_count)
            &&& after[k].last_seen == now
            &&& after[k].duration_us == if d > before[k].duration_us { d } else { before[k].duration_us }
            &&& forall|h: int| 0 <= h < after.len() && h != k ==> #[trigger] after[h] == before[h]
        },
        None => {
            &&& after.len() > 0
            &&& after.last().query@ == q
            &&& after.last().duration_us == d
            &&& opt_text(after.last().table, table_of(q))
            &&& after.last().execution_count == 1
            &&& after.last().last_seen == now
            &&& after.drop_last() == before.skip(if before.len() >= MAX_SLOW_QUERIES { 1int } else { 0int })
        },
    }
}

pub open spec fn select_star_word() -> Seq<char> {
    seq!['S', 'E', 'L', 'E', 'C', 'T', ' ', '*']
}

pub open spec fn where_word() -> Seq<char> {
    seq!['W', 'H', 'E', 'R', 'E']
}

/// Slow-query history, table access counts and query counters.
pub struct DatabaseHealth {
    /// Distinct slow queries, oldest first.
    pub slow_queries: Vec<SlowQuery>,
    pub query_stats: QueryStats,
}

impl DatabaseHealth {
    /// At most fifty slow queries and a hundred distinct tables are held.
    pub open spec fn wf(&self) -> bool {
        &&& self.slow_queries@.len() <= MAX_SLOW_QUERIES
        &&& self.query_stats.tables_accessed@.len() <= MAX_TABLES_TRACKED
        &&& distinct_tables(self.query_stats.tables_accessed@)
    }

    pub fn new() -> (r: DatabaseHealth)
        ensures
            r.wf(),
            r.slow_queries@.len() == 0,
            r.query_stats.total_queries == 0 && r.query_stats.slow_queries_count == 0
                && r.query_stats.select_star_count == 0 && r.query_stats.missing_index_hints == 0
                && r.query_stats.tables_accessed@.len() == 0,
    {
        DatabaseHealth { slow_queries: Vec::new(), query_stats: QueryStats::default() }
    }

    fn record_slow(&mut self, q: &str, qc: &[char], d: u64, now: u64)
        requires
            old(self).wf(),
            qc@ == q@,
        ensures
            final(self).wf(),
            final(self).query_stats == old(self).query_stats,
            records_slow(old(self).slow_queries@, final(self).slow_queries@, q@, d, now),
    {
        let ghost before = self.slow_queries@;
        let mut k: usize = 0;
        while k < self.slow_queries.len()
            invariant
                self.slow_queries@ == before,
                before == old(self).slow_queries@,
                self.query_stats == old(self).query_stats,
                self.wf(),
                qc@ == q@,
                k <= before.len(),
                slow_index_from(before, q@, 0) == slow_index_from(before, q@, k as int),
            decreases self.slow_queries.len() - k,
        {
            let f = chars_of(self.slow_queries[k].query.as_str());
            if same_chars(&f, qc) {
                let mut e = self.slow_queries.remove(k);
                e.execution_count = e.execution_count.saturating_add(1);
                e.last_seen = now;
                if d > e.duration_us {
                    e.duration_us = d;
                }
                self.slow_queries.insert(k, e);
                assert forall|h: int| 0 <= h < self.slow_queries@.len() && h != k
                    implies #[trigger] self.slow_queries@[h] == before[h] by {}
                return;
            }
            k += 1;
        }
        let table = match extract_table_name(qc) {
            Some(t) => Some(string_of(&t)),
            None => None,
        };
        self.slow_queries.push(SlowQuery {
            query: q.to_owned(),
            duration_us: d,
            table,
            execution_count: 1,
            last_seen: now,
        });
        if self.slow_queries.len() > MAX_SLOW_QUERIES {
            self.slow_queries.remove(0);
            assert(self.slow_queries@.drop_last() =~= before.skip(1));
        } else {
            assert(self.slow_queries@.drop_last() =~= before.skip(0));
        }
    }

    /// Accounts one query taking `duration_us` microseconds, seen at `now`.
    /// Returns a notice when the table set is filling up or full.
    pub fn analyze_query(&mut self, query: &str, duration_us: u64, now: u64) -> (r: Option<TableWarning>)
        requires
            old(self).wf(),
        ensures
            final(self).wf(),
            analyzed(*old(self), *final(self), query@, duration_us, now, r),
    {
        let qc = chars_of(query);
        let upper = to_upper(&qc);
        self.query_stats.total_queries = self.query_stats.total_queries.saturating_add(1);
        let mut warning: Option<TableWarning> = None;
        let ghost before = *self;
        if duration_us > SLOW_QUERY_US {
            self.query_stats.slow_queries_count = self.query_stats.slow_queries_count.saturating_add(1);
            let ghost stats_mid = self.query_stats;
            self.record_slow(query, &qc, duration_us, now);
            match extract_table_name(&qc) {
                Some(t) => {
                    warning = count_table_access(&mut self.query_stats.tables_accessed, &t);
                },
                None => {},
            }
        }
        let ss = ['S', 'E', 'L', 'E', 'C', 'T', ' ', '*'];
        let wh = ['W', 'H', 'E', 'R', 'E'];
        assert(ss@ == select_star_word());
        assert(wh@ == where_word());
        if has(&upper, &ss) {
            self.query_stats.select_star_count = self.query_stats.select_star_count.saturating_add(1);
        }
        if has(&upper, &wh) && duration_us > INDEX_HINT_US {
            self.query_stats.missing_index_hints = self.query_stats.missing_index_hints.saturating_add(1);
        }
        warning
    }
}

/// What accounting the query `q` of `d` microseconds at `now` does to the
/// engine, and the notice `r` it gives.
pub open spec fn analyzed(
    before: DatabaseHealth,
    after: DatabaseHealth,
    q: Seq<char>,
    d: u64,
    now: u64,
    r: Option<TableWarning>,
) -> bool {
    let s0 = before.query_stats;
    let s1 = after.query_stats;
    let slow = d > SLOW_QUERY_US;
    &&& s1.total_queries == inc(s0.total_queries)
    &&& s1.slow_queries_count == if slow { inc(s0.slow_queries_count) } else { s0.slow_queries_count }
    &&& s1.select_star_count == if contains(upper_seq(q), select_star_word()) {
        inc(s0.select_star_count)
    } else {
        s0.select_star_count
    }
    &&& s1.missing_index_hints == if contains(upper_seq(q), where_word()) && d > INDEX_HINT_US {
        inc(s0.missing_index_hints)
    } else {
        s0.missing_index_hints
    }
    &&& if slow {
        &&& records_slow(before.slow_queries@, after.slow_queries@, q, d, now)
        &&& match table_of(q) {
            Some(t) => {
                &&& counts_access(s0.tables_accessed@, s1.tables_accessed@, t)
                &&& r == if table_index(s0.tables_accessed@, t) is Some {
                    None
                } else if s0.tables_accessed@.len() >= MAX_TABLES_TRACKED {
                    Some(TableWarning::Evicted)
                } else if s0.tables_accessed@.len() >= TABLES_WARNING_THRESHOLD {
                    Some(TableWarning::ApproachingCapacity(s0.tables_accessed@.len() as usize))
                } else {
                    None
                }
            },
            None => s1.tables_accessed@ == s0.tables_accessed@ && r is None,
        }
    } else {
        &&& after.slow_queries@ == before.slow_queries@
        &&& s1.tables_accessed@ == s0.tables_accessed@
        &&& r is None
    }
}

} // verus!

verus! {

#[derive(Debug, Clone, Copy, PartialEq, Eq, Structural)]
pub enum IssueType {
    MissingIndex,
    UnusedIndex,
    DuplicateIndex,
    MissingForeignKeyIndex,
    SlowQuery,
    LargeTable,
    SelectStar,
}

#[derive(Debug, Clone, Copy, PartialEq, Eq, Structural)]
pub enum IssueSeverity {
    Low,
    Medium,
    High,
    Critical,
}

pub open spec fn severity_weight(s: IssueSeverity) -> u32 {
    match s {
        IssueSeverity::Low => 1,
        IssueSeverity::Medium => 5,
        IssueSeverity::High => 10,
        IssueSeverity::Critical => 20,
    }
}

impl IssueSeverity {
    /// The points this severity takes off the health score.
    pub fn score(&self) -> (r: u32)
        ensures
            r == severity_weight(*self),
    {
        match self {
            IssueSeverity::Low => 1,
            IssueSeverity::Medium => 5,
            IssueSeverity::High => 10,
            IssueSeverity::Critical => 20,
        }
    }
}

#[derive(Debug, Clone)]
pub struct DatabaseIssue {
    pub issue_type: IssueType,
    pub severity: IssueSeverity,
    pub title: String,
    pub description: String,
    pub recommendation: String,
    pub migration_code: Option<String>,
}

/// A slow query this many microseconds long is reported on its own.
pub const VERY_SLOW_US: u64 = 500_000;

/// A reported slow query this many microseconds long is critical.
pub const CRITICAL_SLOW_US: u64 = 1_000_000;

/// The severity of the slow-query volume issue for `n` slow queries.
pub open spec fn slow_volume_severity(n: usize) -> IssueSeverity {
    if n > 50 {
        IssueSeverity::Critical
    } else if n > 25 {
        IssueSeverity::High
    } else {
        IssueSeverity::Medium
    }
}

/// One issue for each very slow query of `sq`.
pub open spec fn very_slow_kinds(sq: Seq<SlowQuery>) -> Seq<(IssueType, IssueSeverity)>
    decreases sq.len(),
{
    if sq.len() == 0 {
        Seq::empty()
    } else {
        let rest = very_slow_kinds(sq.drop_last());
        let d = sq.last().duration_us;
        if d > VERY_SLOW_US {
            rest.push(
                (IssueType::SlowQuery, if d > CRITICAL_SLOW_US { IssueSeverity::Critical } else { IssueSeverity::High }),
            )
        } else {
            rest
        }
    }
}

/// The five most recently tracked slow queries (fewer if there are fewer).
pub open spec fn newest_five(sq: Seq<SlowQuery>) -> Seq<SlowQuery> {
    if sq.len() > 5 {
        sq.skip(sq.len() - 5)
    } else {
        sq
    }
}

/// The kind and severity of each issue the counters and history show, before ranking.
pub open spec fn issue_kinds(st: QueryStats, sq: Seq<SlowQuery>) -> Seq<(IssueType, IssueSeverity)> {
    (if st.slow_queries_count > 10 {
        seq![(IssueType::SlowQuery, slow_volume_severity(st.slow_queries_count))]
    } else {
        Seq::empty()
    }) + (if st.select_star_count > 5 {
        seq![(IssueType::SelectStar, IssueSeverity::Medium)]
    } else {
        Seq::empty()
    }) + (if st.missing_index_hints > 5 {
        seq![(IssueType::MissingIndex, IssueSeverity::High)]
    } else {
        Seq::empty()
    }) + very_slow_kinds(newest_five(sq))
}

pub open spec fn weight_sum(ks: Seq<(IssueType, IssueSeverity)>) -> nat
    decreases ks.len(),
{
    if ks.len() == 0 {
        0
    } else {
        weight_sum(ks.drop_last()) + severity_weight(ks.last().1) as nat
    }
}

/// 100 less the issues' weights, floored at 0; then 5 back when under 5% of
/// queries use `SELECT *`, and 10 back when under 2% are slow, never above 100.
pub open spec fn health_score(st: QueryStats, sq: Seq<SlowQuery>) -> u32 {
    let w = weight_sum(issue_kinds(st, sq));
    let base: int = if w >= 100 { 0 } else { 100 - w };
    let a: int = if st.total_queries > 0 && st.select_star_count * 100 < 5 * st.total_queries {
        if base + 5 > 100 { 100 } else { base + 5 }
    } else {
        base
    };
    let b: int = if st.total_queries > 0 && st.slow_queries_count * 100 < 2 * st.total_queries {
        if a + 10 > 100 { 100 } else { a + 10 }
    } else {
        a
    };
    b as u32
}

pub open spec fn missing_index_migration() -> Seq<char> {
    "# Review slow queries to determine appropriate indexes\n# rails g migration AddIndexToTable column:index"@
}

/// The missing-index issue carries the migration hint; no other issue carries code.
pub open spec fn migration_ok(i: DatabaseIssue) -> bool {
    if i.issue_type == IssueType::MissingIndex {
        i.migration_code matches Some(c) && c@ == missing_index_migration()
    } else {
        i.migration_code is None
    }
}

pub open spec fn kind_of(i: DatabaseIssue) -> (IssueType, IssueSeverity) {
    (i.issue_type, i.severity)
}

/// Appends a duration in microseconds as milliseconds with one decimal, rounded.
fn push_ms(out: &mut Vec<char>, us: u64) {
    let tenths = us / 100 + if us % 100 >= 50 { 1 } else { 0 };
    push_decimal(out, tenths / 10);
    out.push('.');
    push_decimal(out, tenths % 10);
}

fn counted_title(n: usize, tail: &str) -> String {
    let mut t: Vec<char> = Vec::new();
    push_decimal(&mut t, n as u64);
    push_str(&mut t, tail);
    string_of(&t)
}

fn very_slow_issue(sq: &SlowQuery) -> (r: DatabaseIssue)
    requires
        sq.duration_us > VERY_SLOW_US,
    ensures
        r.issue_type == IssueType::SlowQuery,
        r.severity == if sq.duration_us > CRITICAL_SLOW_US { IssueSeverity::Critical } else { IssueSeverity::High },
        r.migration_code is None,
{
    let mut title: Vec<char> = Vec::new();
    push_str(&mut title, "Very slow query");
    match &sq.table {
        Some(t) => {
            push_str(&mut title, " on table '");
            push_str(&mut title, t.as_str());
            push_str(&mut title, "'");
        },
        None => {},
    }
    push_str(&mut title, ": ");
    push_ms(&mut title, sq.duration_us);
    push_str(&mut title, "ms");
    let q = chars_of(sq.query.as_str());
    let cut = if q.len() > 100 { 100 } else { q.len() };
    let description = slice_vec(&q, 0, cut);
    let mut rec: Vec<char> = Vec::new();
    push_str(&mut rec, "This query has been executed ");
    push_decimal(&mut rec, sq.execution_count as u64);
    push_str(&mut rec, " times. Consider optimization or caching.");
    DatabaseIssue {
        issue_type: IssueType::SlowQuery,
        severity: if sq.duration_us > CRITICAL_SLOW_US { IssueSeverity::Critical } else { IssueSeverity::High },
        title: string_of(&title),
        description: string_of(&description),
        recommendation: string_of(&rec),
        migration_code: None,
    }
}

impl DatabaseHealth {
    /// The issues the counters and history show, before ranking.
    fn issue_list(&self) -> (r: Vec<DatabaseIssue>)
        ensures
            r@.map_values(|i: DatabaseIssue| kind_of(i)) == issue_kinds(self.query_stats, self.slow_queries@),
            forall|k: int| 0 <= k < r@.len() ==> migration_ok(#[trigger] r@[k]),
    {
        let st = &self.query_stats;
        let mut issues: Vec<DatabaseIssue> = Vec::new();
        let ghost mut kinds: Seq<(IssueType, IssueSeverity)> = Seq::empty();
        if st.slow_queries_count > 10 {
            let n = st.slow_queries_count;
            let severity = if n > 50 {
                IssueSeverity::Critical
            } else if n > 25 {
                IssueSeverity::High
            } else {
                IssueSeverity::Medium
            };
            let mut d: Vec<char> = Vec::new();
            push_str(&mut d, "Queries taking >100ms have been detected ");
            push_decimal(&mut d, n as u64);
            push_str(&mut d, " times. This indicates potential performance issues.");
            issues.push(DatabaseIssue {
                issue_type: IssueType::SlowQuery,
                severity,
                title: counted_title(n, " slow queries detected"),
                description: string_of(&d),
                recommendation: "Review slow queries and consider adding indexes or optimizing query logic.".to_owned(),
                migration_code: None,
            });
        }
        proof {
            kinds = if st.slow_queries_count > 10 {
                seq![(IssueType::SlowQuery, slow_volume_severity(st.slow_queries_count))]
            } else {
                Seq::empty()
            };
            assert(issues@.map_values(|i: DatabaseIssue| kind_of(i)) == kinds);
        }
        if st.select_star_count > 5 {
            issues.push(DatabaseIssue {
                issue_type: IssueType::SelectStar,
                severity: IssueSeverity::Medium,
                title: counted_title(st.select_star_count, " queries using SELECT *"),
                description: "SELECT * queries fetch all columns, which can be inefficient.".to_owned(),
                recommendation: "Specify only the columns you need in SELECT queries.".to_owned(),
                migration_code: None,
            });
        }
        proof {
            let add = if st.select_star_count > 5 {
                seq![(IssueType::SelectStar, IssueSeverity::Medium)]
            } else {
                Seq::empty()
            };
            assert(issues@.map_values(|i: DatabaseIssue| kind_of(i)) =~= kinds + add);
            kinds = kinds + add;
        }
        if st.missing_index_hints > 5 {
            issues.push(DatabaseIssue {
                issue_type: IssueType::MissingIndex,
                severity: IssueSeverity::High,
                title: counted_title(st.missing_index_hints, " queries may benefit from indexes"),
                description: "Slow queries with WHERE clauses detected. Adding indexes may improve performance.".to_owned(),
                recommendation: "Analyze slow queries and add indexes on frequently filtered columns.".to_owned(),
                migration_code: Some(
                    "# Review slow queries to determine appropriate indexes\n# rails g migration AddIndexToTable column:index".to_owned(),
                ),
            });
        }
        proof {
            let add = if st.missing_index_hints > 5 {
                seq![(IssueType::MissingIndex, IssueSeverity::High)]
            } else {
                Seq::empty()
            };
            assert(issues@.map_values(|i: DatabaseIssue| kind_of(i)) =~= kinds + add);
            kinds = kinds + add;
        }
        let n = self.slow_queries.len();
        let start = if n > 5 { n - 5 } else { 0 };
        let ghost five = newest_five(self.slow_queries@);
        assert(five == self.slow_queries@.subrange(start as int, n as int));
        let ghost head = kinds;
        let mut i: usize = start;
        while i < n
            invariant
                start <= i <= n == self.slow_queries@.len(),
                five == self.slow_queries@.subrange(start as int, n as int),
                issues@.map_values(|i: DatabaseIssue| kind_of(i)) == head + very_slow_kinds(five.take(i - start)),
                forall|k: int| 0 <= k < issues@.len() ==> migration_ok(#[trigger] issues@[k]),
            decreases n - i,
        {
            assert(five.take(i + 1 - start).drop_last() == five.take(i - start));
            assert(five.take(i + 1 - start).last() == self.slow_queries@[i as int]);
            let ghost before = issues@;
            if self.slow_queries[i].duration_us > VERY_SLOW_US {
                issues.push(very_slow_issue(&self.slow_queries[i]));
                assert(issues@.map_values(|i: DatabaseIssue| kind_of(i)) =~= before.map_values(
                    |i: DatabaseIssue| kind_of(i),
                ).push(kind_of(issues@.last())));
            }
            i += 1;
        }
        assert(five.take(n - start) == five);
        issues
    }
}

} // verus!

verus! {

/// `r` holds the issues of kinds `ks`, each once, most severe first.
pub open spec fn ranked_issues(ks: Seq<(IssueType, IssueSeverity)>, r: Seq<DatabaseIssue>) -> bool {
    &&& r.len() == ks.len()
    &&& exists|perm: Seq<usize>|
        is_permutation(perm, ks.len()) && forall|k: int| 0 <= k < r.len() ==> kind_of(#[trigger] r[k]) == ks[perm[k] as int]
    &&& forall|k: int, l: int|
        0 <= k < l < r.len() ==> severity_weight(#[trigger] r[k].severity) >= severity_weight(#[trigger] r[l].severity)
}

fn copy_issue(i: &DatabaseIssue) -> (r: DatabaseIssue)
    ensures
        kind_of(r) == kind_of(*i),
        r.title == i.title,
        r.description == i.description,
        r.recommendation == i.recommendation,
        r.migration_code == i.migration_code,
{
    DatabaseIssue {
        issue_type: i.issue_type,
        severity: i.severity,
        title: i.title.clone(),
        description: i.description.clone(),
        recommendation: i.recommendation.clone(),
        migration_code: match &i.migration_code {
            Some(c) => Some(c.clone()),
            None => None,
        },
    }
}

fn copy_slow(q: &SlowQuery) -> (r: SlowQuery)
    ensures
        same_slow(r, *q),
{
    SlowQuery {
        query: q.query.clone(),
        duration_us: q.duration_us,
        table: match &q.table {
            Some(t) => Some(t.clone()),
            None => None,
        },
        execution_count: q.execution_count,
        last_seen: q.last_seen,
    }
}

impl DatabaseHealth {
    /// The issues, most severe first.
    pub fn get_issues(&self) -> (r: Vec<DatabaseIssue>)
        ensures
            ranked_issues(issue_kinds(self.query_stats, self.slow_queries@), r@),
            forall|k: int| 0 <= k < r@.len() ==> migration_ok(#[trigger] r@[k]),
    {
        let list = self.issue_list();
        let ghost ks = issue_kinds(self.query_stats, self.slow_queries@);
        let mut keys: Vec<u64> = Vec::new();
        let mut i: usize = 0;
        while i < list.len()
            invariant
                i <= list@.len(),
                keys@.len() == i,
                forall|j: int| 0 <= j < i ==> keys@[j] == severity_weight(#[trigger] list@[j].severity) as u64,
            decreases list.len() - i,
        {
            keys.push(list[i].severity.score() as u64);
            i += 1;
        }
        let perm = rank_desc(&keys);
        let mut r: Vec<DatabaseIssue> = Vec::new();
        let mut k: usize = 0;
        while k < perm.len()
            invariant
                k <= perm@.len(),
                is_permutation(perm@, list@.len()),
                ranked_by(perm@, keys@),
                keys@.len() == list@.len(),
                forall|j: int| 0 <= j < keys@.len() ==> keys@[j] == severity_weight(#[trigger] list@[j].severity) as u64,
                list@.map_values(|i: DatabaseIssue| kind_of(i)) == ks,
                r@.len() == k,
                forall|j: int| 0 <= j < k ==> kind_of(#[trigger] r@[j]) == kind_of(list@[perm@[j] as int]),
                forall|j: int| 0 <= j < list@.len() ==> migration_ok(#[trigger] list@[j]),
                forall|j: int| 0 <= j < k ==> migration_ok(#[trigger] r@[j]),
            decreases perm.len() - k,
        {
            r.push(copy_issue(&list[perm[k]]));
            k += 1;
        }
        assert(ks.len() == list@.len());
        assert forall|j: int| 0 <= j < r@.len() implies kind_of(#[trigger] r@[j]) == ks[perm@[j] as int] by {
            assert(ks[perm@[j] as int] == kind_of(list@[perm@[j] as int]));
        }
        assert(is_permutation(perm@, ks.len()));
        assert forall|a: int, b: int| 0 <= a < b < r@.len()
            implies severity_weight(#[trigger] r@[a].severity) >= severity_weight(#[trigger] r@[b].severity) by {
            assert(keys@[perm@[a] as int] >= keys@[perm@[b] as int]);
        }
        r
    }

    /// The health score, from 0 to 100.
    pub fn calculate_health_score(&self) -> (r: u32)
        ensures
            r == health_score(self.query_stats, self.slow_queries@),
    {
        let list = self.issue_list();
        let ghost ks = issue_kinds(self.query_stats, self.slow_queries@);
        let mut score: u32 = 100;
        let mut i: usize = 0;
        while i < list.len()
            invariant
                i <= list@.len(),
                list@.map_values(|i: DatabaseIssue| kind_of(i)) == ks,
                score as int == if weight_sum(ks.take(i as int)) >= 100 { 0 } else { 100 - weight_sum(ks.take(i as int)) },
            decreases list.len() - i,
        {
            assert(ks.take(i + 1).drop_last() == ks.take(i as int));
            assert(ks.take(i + 1).last() == kind_of(list@[i as int]));
            score = score.saturating_sub(list[i].severity.score());
            i += 1;
        }
        assert(ks.take(list@.len() as int) == ks);
        let st = &self.query_stats;
        if st.total_queries > 0 {
            if (st.select_star_count as u128) * 100 < (st.total_queries as u128) * 5 {
                score = if score + 5 > 100 { 100 } else { score + 5 };
            }
            if (st.slow_queries_count as u128) * 100 < (st.total_queries as u128) * 2 {
                score = if score + 10 > 100 { 100 } else { score + 10 };
            }
        }
        score
    }

    /// A copy of the counters.
    pub fn get_stats(&self) -> (r: QueryStats)
        ensures
            r.total_queries == self.query_stats.total_queries,
            r.slow_queries_count == self.query_stats.slow_queries_count,
            r.select_star_count == self.query_stats.select_star_count,
            r.missing_index_hints == self.query_stats.missing_index_hints,
            r.tables_accessed@.len() == self.query_stats.tables_accessed@.len(),
            forall|k: int| 0 <= k < r.tables_accessed@.len() ==> (#[trigger] r.tables_accessed@[k]).name
                == self.query_stats.tables_accessed@[k].name && r.tables_accessed@[k].count
                == self.query_stats.tables_accessed@[k].count,
    {
        let st = &self.query_stats;
        let mut tables: Vec<TableAccess> = Vec::new();
        let mut i: usize = 0;
        while i < st.tables_accessed.len()
            invariant
                i <= st.tables_accessed@.len(),
                tables@.len() == i,
                forall|k: int| 0 <= k < i ==> (#[trigger] tables@[k]).name == st.tables_accessed@[k].name
                    && tables@[k].count == st.tables_accessed@[k].count,
            decreases st.tables_accessed.len() - i,
        {
            let t = &st.tables_accessed[i];
            tables.push(TableAccess { name: t.name.clone(), count: t.count });
            i += 1;
        }
        QueryStats {
            total_queries: st.total_queries,
            slow_queries_count: st.slow_queries_count,
            select_star_count: st.select_star_count,
            missing_index_hints: st.missing_index_hints,
            tables_accessed: tables,
        }
    }

    /// The slow queries, slowest first.
    pub fn get_slow_queries(&self) -> (r: Vec<SlowQuery>)
        ensures
            r@.len() == self.slow_queries@.len(),
            exists|perm: Seq<usize>|
                is_permutation(perm, self.slow_queries@.len()) && forall|k: int|
                    0 <= k < r@.len() ==> same_slow(#[trigger] r@[k], self.slow_queries@[perm[k] as int]),
            forall|k: int, l: int| 0 <= k < l < r@.len() ==> #[trigger] r@[k].duration_us >= #[trigger] r@[l].duration_us,
    {
        let mut keys: Vec<u64> = Vec::new();
        let mut i: usize = 0;
        while i < self.slow_queries.len()
            invariant
                i <= self.slow_queries@.len(),
                keys@.len() == i,
                forall|j: int| 0 <= j < i ==> keys@[j] == (#[trigger] self.slow_queries@[j]).duration_us,
            decreases self.slow_queries.len() - i,
        {
            keys.push(self.slow_queries[i].duration_us);
            i += 1;
        }
        let perm = rank_desc(&keys);
        let mut r: Vec<SlowQuery> = Vec::new();
        let mut k: usize = 0;
        while k < perm.len()
            invariant
                k <= perm@.len(),
                is_permutation(perm@, self.slow_queries@.len()),
                ranked_by(perm@, keys@),
                keys@.len() == self.slow_queries@.len(),
                forall|j: int| 0 <= j < keys@.len() ==> keys@[j] == (#[trigger] self.slow_queries@[j]).duration_us,
                r@.len() == k,
                forall|j: int| 0 <= j < k ==> same_slow(#[trigger] r@[j], self.slow_queries@[perm@[j] as int]),
            decreases perm.len() - k,
        {
            r.push(copy_slow(&self.slow_queries[perm[k]]));
            k += 1;
        }
        assert forall|a: int, b: int| 0 <= a < b < r@.len() implies #[trigger] r@[a].duration_us >= #[trigger] r@[b].duration_us by {
            assert(keys@[perm@[a] as int] >= keys@[perm@[b] as int]);
        }
        r
    }

    /// The ten most accessed tables with their counts, most accessed first.
    pub fn get_top_tables(&self) -> (r: Vec<(String, usize)>)
        ensures
            r@.len() == if self.query_stats.tables_accessed@.len() < 10 { self.query_stats.tables_accessed@.len() } else { 10 },
            exists|perm: Seq<usize>|
                is_permutation(perm, self.query_stats.tables_accessed@.len()) && (forall|k: int, l: int|
                    0 <= k < l < perm.len() ==> self.query_stats.tables_accessed@[#[trigger] perm[k] as int].count
                        >= self.query_stats.tables_accessed@[#[trigger] perm[l] as int].count) && forall|k: int|
                    0 <= k < r@.len() ==> (#[trigger] r@[k]).0 == self.query_stats.tables_accessed@[perm[k] as int].name
                        && r@[k].1 == self.query_stats.tables_accessed@[perm[k] as int].count,
            forall|k: int, l: int| 0 <= k < l < r@.len() ==> #[trigger] r@[k].1 >= #[trigger] r@[l].1,
    {
        let ts = &self.query_stats.tables_accessed;
        let mut keys: Vec<u64> = Vec::new();
        let mut i: usize = 0;
        while i < ts.len()
            invariant
                i <= ts@.len(),
                keys@.len() == i,
                forall|j: int| 0 <= j < i ==> keys@[j] == (#[trigger] ts@[j]).count as u64,
            decreases ts.len() - i,
        {
            keys.push(ts[i].count as u64);
            i += 1;
        }
        let perm = rank_desc(&keys);
        let mut r: Vec<(String, usize)> = Vec::new();
        let mut k: usize = 0;
        while k < perm.len() && k < 10
            invariant
                k <= perm@.len(),
                k <= 10,
                is_permutation(perm@, ts@.len()),
                ranked_by(perm@, keys@),
                keys@.len() == ts@.len(),
                forall|j: int| 0 <= j < keys@.len() ==> keys@[j] == (#[trigger] ts@[j]).count as u64,
                r@.len() == k,
                forall|j: int| 0 <= j < k ==> (#[trigger] r@[j]).0 == ts@[perm@[j] as int].name && r@[j].1
                    == ts@[perm@[j] as int].count,
            decreases perm.len() - k,
        {
            let t = &ts[perm[k]];
            r.push((t.name.clone(), t.count));
            k += 1;
        }
        assert forall|a: int, b: int| 0 <= a < b < r@.len() implies #[trigger] r@[a].1 >= #[trigger] r@[b].1 by {
            assert(keys@[perm@[a] as int] >= keys@[perm@[b] as int]);
        }
        r
    }
}

} // verus!

verus! {

/// No slow, `SELECT *` or index-hint query has been counted, and no slow query is held.
pub open spec fn clean(h: DatabaseHealth) -> bool {
    &&& h.query_stats.slow_queries_count == 0
    &&& h.query_stats.select_star_count == 0
    &&& h.query_stats.missing_index_hints == 0
    &&& h.slow_queries@.len() == 0
}

/// An engine fed only fast queries without `SELECT *` stays clean and scores
/// exactly 100.
pub proof fn fast_plain_queries_keep_full_score(
    before: DatabaseHealth,
    after: DatabaseHealth,
    q: Seq<char>,
    d: u64,
    now: u64,
    r: Option<TableWarning>,
)
    requires
        clean(before),
        analyzed(before, after, q, d, now, r),
        d <= INDEX_HINT_US,
        !contains(upper_seq(q), select_star_word()),
    ensures
        clean(after),
        health_score(after.query_stats, after.slow_queries@) == 100,
{
    let ks = issue_kinds(after.query_stats, after.slow_queries@);
    assert(newest_five(after.slow_queries@).len() == 0);
    assert(ks =~= Seq::<(IssueType, IssueSeverity)>::empty());
    assert(weight_sum(ks) == 0);
}

proof fn lemma_weight_concat(a: Seq<(IssueType, IssueSeverity)>, b: Seq<(IssueType, IssueSeverity)>)
    ensures
        weight_sum(a + b) == weight_sum(a) + weight_sum(b),
    decreases b.len(),
{
    if b.len() == 0 {
        assert(a + b == a);
    } else {
        lemma_weight_concat(a, b.drop_last());
        assert((a + b).drop_last() == a + b.drop_last());
        assert((a + b).last() == b.last());
    }
}

/// More than ten slow queries and more than five slow queries with `WHERE`,
/// when slow queries are not under 2% of all, bring the score below 100 and
/// give a slow-query issue and a missing-index issue.
pub proof fn slow_filtered_queries_lower_score(st: QueryStats, sq: Seq<SlowQuery>)
    requires
        st.slow_queries_count > 10,
        st.missing_index_hints > 5,
        st.slow_queries_count * 100 >= 2 * st.total_queries,
    ensures
        health_score(st, sq) < 100,
        exists|i: int| 0 <= i < issue_kinds(st, sq).len() && (#[trigger] issue_kinds(st, sq)[i]).0 == IssueType::SlowQuery,
        exists|i: int| 0 <= i < issue_kinds(st, sq).len() && (#[trigger] issue_kinds(st, sq)[i]).0 == IssueType::MissingIndex,
{
    let first = seq![(IssueType::SlowQuery, slow_volume_severity(st.slow_queries_count))];
    let star = if st.select_star_count > 5 {
        seq![(IssueType::SelectStar, IssueSeverity::Medium)]
    } else {
        Seq::empty()
    };
    let miss = seq![(IssueType::MissingIndex, IssueSeverity::High)];
    let rest = very_slow_kinds(newest_five(sq));
    let ks = issue_kinds(st, sq);
    assert(ks == first + star + miss + rest);
    lemma_weight_concat(first + star + miss, rest);
    lemma_weight_concat(first + star, miss);
    lemma_weight_concat(first, star);
    assert(weight_sum(first) >= 5) by {
        assert(first.drop_last().len() == 0);
    }
    assert(weight_sum(miss) == 10) by {
        assert(miss.drop_last().len() == 0);
        assert(weight_sum(miss.drop_last()) == 0);
        assert(miss.last() == (IssueType::MissingIndex, IssueSeverity::High));
    }
    assert(ks[0].0 == IssueType::SlowQuery);
    assert(ks[(first.len() + star.len()) as int].0 == IssueType::MissingIndex);
}

} // verus!
