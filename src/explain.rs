//! Query plans: reading cost and row estimates from plan text, warnings and
//! index advice. Plans are simulated; no database is contacted.
use vstd::prelude::*;
use crate::frontend_log::{decimal_millionths, decimal_millionths_exec};
use crate::text::{chars_of, contains, find_in, has, index_of, parse_bounded, parse_number, push_decimal, push_str, slice_vec, string_of};
use crate::database::first_token;

verus! {

#[derive(Debug, Clone, Copy, PartialEq, Eq, Structural)]
pub enum WarningSeverity {
    Info,
    Warning,
    Critical,
}

#[derive(Debug, Clone)]
pub struct ExplainWarning {
    pub severity: WarningSeverity,
    pub message: String,
}

/// A query plan. The cost is in millionths of the planner's unit.
#[derive(Debug, Clone)]
pub struct ExplainPlan {
    pub raw_output: String,
    pub formatted: String,
    pub warnings: Vec<ExplainWarning>,
    pub cost_millionths: Option<u64>,
    pub rows: Option<usize>,
}

/// The total cost after `cost=<start>..`, in millionths.
pub open spec fn plan_cost(p: Seq<char>) -> Option<nat> {
    match index_of(p, seq!['c', 'o', 's', 't', '='], 0) {
        Some(s) => {
            let after = p.skip(s + 5);
            match index_of(after, seq!['.', '.'], 0) {
                Some(e) => match first_token(after.skip(e + 2)) {
                    Some(t) => decimal_millionths(t),
                    None => None,
                },
                None => None,
            }
        },
        None => None,
    }
}

/// The row estimate after `rows=`.
pub open spec fn plan_rows(p: Seq<char>) -> Option<nat> {
    match index_of(p, seq!['r', 'o', 'w', 's', '='], 0) {
        Some(s) => match first_token(p.skip(s + 5)) {
            Some(t) => parse_bounded(t, usize::MAX as nat),
            None => None,
        },
        None => None,
    }
}

/// The severities of the warnings for plan text `p`, in order.
pub open spec fn warning_kinds(p: Seq<char>) -> Seq<WarningSeverity> {
    (if contains(p, "Seq Scan"@) { seq![WarningSeverity::Warning] } else { Seq::empty() }) + (match plan_cost(p) {
        Some(c) => if c > 1_000_000_000 {
            seq![WarningSeverity::Critical]
        } else if c > 100_000_000 {
            seq![WarningSeverity::Warning]
        } else {
            Seq::empty()
        },
        None => Seq::empty(),
    }) + (match plan_rows(p) {
        Some(r) => if r > 10000 { seq![WarningSeverity::Warning] } else { Seq::empty() },
        None => Seq::empty(),
    })
}

fn after_key(p: &[char], k: &[char]) -> (r: Option<Vec<char>>)
    ensures
        match r {
            Some(a) => index_of(p@, k@, 0) is Some && a@ == p@.skip(index_of(p@, k@, 0)->0 + k@.len()),
            None => index_of(p@, k@, 0) is None,
        },
{
    proof { crate::text::lemma_slice_len_fits(p); }
    match find_in(p, k, 0) {
        Some(s) => {
            let n = p.len();
            let a = slice_vec(p, s + k.len(), n);
            assert(a@ == p@.skip(s + k@.len()));
            Some(a)
        },
        None => None,
    }
}

fn plan_cost_exec(p: &[char]) -> (r: Option<u64>)
    ensures
        match r {
            Some(v) => plan_cost(p@) == Some(v as nat),
            None => plan_cost(p@) is None || plan_cost(p@)->0 > u64::MAX,
        },
{
    let key = ['c', 'o', 's', 't', '='];
    assert(key@ == seq!['c', 'o', 's', 't', '=']);
    let after = match after_key(p, &key) {
        Some(a) => a,
        None => return None,
    };
    let dots = ['.', '.'];
    assert(dots@ == seq!['.', '.']);
    let e = match find_in(&after, &dots, 0) {
        Some(e) => e,
        None => return None,
    };
    let n = after.len();
    let rest = slice_vec(&after, e + 2, n);
    assert(rest@ == after@.skip(e + 2));
    match crate::command::first_word(&rest) {
        Some(t) => {
            let len = t.len();
            assert(t@.subrange(0, len as int) == t@);
            decimal_millionths_exec(&t, 0, len)
        },
        None => None,
    }
}

fn plan_rows_exec(p: &[char]) -> (r: Option<usize>)
    ensures
        match r {
            Some(v) => plan_rows(p@) == Some(v as nat),
            None => plan_rows(p@) is None,
        },
{
    let key = ['r', 'o', 'w', 's', '='];
    assert(key@ == seq!['r', 'o', 'w', 's', '=']);
    let after = match after_key(p, &key) {
        Some(a) => a,
        None => return None,
    };
    match crate::command::first_word(&after) {
        Some(t) => {
            let len = t.len();
            assert(t@.subrange(0, len as int) == t@);
            match parse_number(&t, 0, len, usize::MAX as u64) {
                Some(v) => Some(v as usize),
                None => None,
            }
        },
        None => None,
    }
}

/// `v` millionths as a number with two decimals, rounded half up.
fn push_two_places(out: &mut Vec<char>, v: u64) {
    let h: u64 = v / 10_000 + if v % 10_000 >= 5_000 { 1 } else { 0 };
    push_decimal(out, h / 100);
    out.push('.');
    if h % 100 < 10 {
        out.push('0');
    }
    push_decimal(out, h % 100);
}

fn has_text(s: &[char], t: &str) -> (r: bool)
    ensures
        r == contains(s@, t@),
{
    let tc = chars_of(t);
    has(s, &tc)
}

pub open spec fn warning_kind(w: ExplainWarning) -> WarningSeverity {
    w.severity
}

/// The warnings for plan text `p`: a sequential scan, a high cost, a large
/// row estimate.
pub fn analyze_plan(p: &str) -> (r: Vec<ExplainWarning>)
    ensures
        r@.map_values(|w: ExplainWarning| warning_kind(w)) == warning_kinds(p@) || (plan_cost(p@) is Some
            && plan_cost(p@)->0 > u64::MAX),
{
    let pc = chars_of(p);
    let mut out: Vec<ExplainWarning> = Vec::new();
    if has_text(&pc, "Seq Scan") {
        out.push(ExplainWarning {
            severity: WarningSeverity::Warning,
            message: "Sequential scan detected - consider adding an index".to_owned(),
        });
    }
    let ghost first = out@.map_values(|w: ExplainWarning| warning_kind(w));
    match plan_cost_exec(&pc) {
        Some(c) => {
            if c > 1_000_000_000 {
                let mut m: Vec<char> = Vec::new();
                push_str(&mut m, "Very high query cost: ");
                push_two_places(&mut m, c);
                out.push(ExplainWarning { severity: WarningSeverity::Critical, message: string_of(&m) });
            } else if c > 100_000_000 {
                let mut m: Vec<char> = Vec::new();
                push_str(&mut m, "High query cost: ");
                push_two_places(&mut m, c);
                out.push(ExplainWarning { severity: WarningSeverity::Warning, message: string_of(&m) });
            }
        },
        None => {},
    }
    match plan_rows_exec(&pc) {
        Some(r) => {
            if r > 10000 {
                let mut m: Vec<char> = Vec::new();
                push_str(&mut m, "Large result set estimated: ");
                push_decimal(&mut m, r as u64);
                push_str(&mut m, " rows");
                out.push(ExplainWarning { severity: WarningSeverity::Warning, message: string_of(&m) });
            }
        },
        None => {},
    }
    assert(plan_cost(p@) is None || plan_cost(p@)->0 > u64::MAX || out@.map_values(|w: ExplainWarning| warning_kind(w)) =~= warning_kinds(p@));
    out
}

} // verus!

verus! {

/// A plan line re-indented with two spaces per two leading blanks, then trimmed.
pub open spec fn formatted_line(l: Seq<char>) -> Seq<char> {
    let indent = (l.len() - crate::text::trim_start(l).len()) / 2;
    Seq::new((2 * indent) as nat, |i: int| ' ') + crate::text::trim(l)
}

/// The formatted lines joined by newlines.
pub open spec fn formatted_plan(ls: Seq<Seq<char>>) -> Seq<char>
    decreases ls.len(),
{
    if ls.len() == 0 {
        Seq::empty()
    } else if ls.len() == 1 {
        formatted_line(ls[0])
    } else {
        formatted_plan(ls.drop_last()) + seq!['\n'] + formatted_line(ls.last())
    }
}

fn format_line(l: &[char]) -> (r: Vec<char>)
    ensures
        r@ == formatted_line(l@),
{
    let lo = crate::text::trim_start_index(l);
    let indent = lo / 2;
    let mut out: Vec<char> = Vec::new();
    while out.len() < 2 * indent
        invariant
            indent == lo / 2,
            lo <= l@.len(),
            out@.len() <= 2 * indent,
            out@ == Seq::new(out@.len(), |i: int| ' '),
        decreases 2 * indent - out.len(),
    {
        out.push(' ');
        assert(out@ =~= Seq::new(out@.len(), |i: int| ' '));
    }
    let t = crate::text::trimmed(l);
    crate::text::push_all(&mut out, &t);
    assert(l@.len() - crate::text::trim_start(l@).len() == lo);
    out
}

/// The plan text re-indented for display.
pub fn format_explain(raw: &str) -> (r: String)
    ensures
        r@ == formatted_plan(crate::project::split_lines(raw@)),
{
    let c = chars_of(raw);
    let lines = crate::project::split_lines_exec(&c);
    let ghost ls = crate::project::split_lines(raw@);
    let mut out: Vec<char> = Vec::new();
    let mut i: usize = 0;
    while i < lines.len()
        invariant
            i <= lines@.len(),
            lines@.map_values(|l: Vec<char>| l@) == ls,
            out@ == formatted_plan(ls.take(i as int)),
        decreases lines.len() - i,
    {
        assert(ls.len() == lines@.len());
        assert(ls.take(i + 1).drop_last() == ls.take(i as int));
        assert(ls.take(i + 1).last() == lines@[i as int]@);
        if i > 0 {
            out.push('\n');
        }
        let f = format_line(&lines[i]);
        crate::text::push_all(&mut out, &f);
        assert(out@ =~= formatted_plan(ls.take(i + 1)));
        i += 1;
    }
    assert(ls.take(lines@.len() as int) == ls);
    string_of(&out)
}

/// Runs `EXPLAIN` for queries; the plans are simulated.
pub struct ExplainExecutor {
    database_url: Option<String>,
}

pub open spec fn simulated_plan() -> &'static str {
    "Seq Scan on users  (cost=0.00..15.00 rows=500 width=32)\n  Filter: (active = true)"
}

impl ExplainExecutor {
    pub fn new(database_url: Option<String>) -> (r: ExplainExecutor) {
        ExplainExecutor { database_url }
    }

    /// The plan of `query`: a fixed sample plan with its formatting, warnings,
    /// cost and row estimate.
    pub fn explain_query(&self, query: &str) -> (r: Result<ExplainPlan, String>)
        ensures
            r matches Ok(p) && p.raw_output@ == simulated_plan()@ && p.formatted@ == formatted_plan(
                crate::project::split_lines(simulated_plan()@),
            ) && p.cost_millionths == Some(15_000_000u64) && p.rows == Some(500usize),
    {
        let raw = simulated_plan_text();
        let formatted = format_explain(raw);
        let warnings = analyze_plan(raw);
        Ok(
            ExplainPlan {
                raw_output: raw.to_owned(),
                formatted,
                warnings,
                cost_millionths: Some(15_000_000),
                rows: Some(500),
            },
        )
    }
}

fn simulated_plan_text() -> (r: &'static str)
    ensures
        r@ == simulated_plan()@,
{
    "Seq Scan on users  (cost=0.00..15.00 rows=500 width=32)\n  Filter: (active = true)"
}

impl ExplainPlan {
    pub fn has_index_scan(&self) -> (r: bool)
        ensures
            r == (contains(self.raw_output@, "Index Scan"@) || contains(self.raw_output@, "Index Only Scan"@)
                || contains(self.raw_output@, "Bitmap Index Scan"@)),
    {
        let c = chars_of(self.raw_output.as_str());
        has_text(&c, "Index Scan") || has_text(&c, "Index Only Scan") || has_text(&c, "Bitmap Index Scan")
    }

    pub fn has_seq_scan(&self) -> (r: bool)
        ensures
            r == contains(self.raw_output@, "Seq Scan"@),
    {
        let c = chars_of(self.raw_output.as_str());
        has_text(&c, "Seq Scan")
    }

    /// Advice: an index against sequential scans, and a look at indexes when
    /// the cost is above 100 without any index scan.
    pub fn suggest_indexes(&self) -> (r: Vec<String>)
        ensures
            r@.len() == (if contains(self.raw_output@, "Seq Scan"@) { 1int } else { 0int }) + (match self.cost_millionths {
                Some(c) => if c > 100_000_000 && !(contains(self.raw_output@, "Index Scan"@) || contains(
                    self.raw_output@,
                    "Index Only Scan"@,
                ) || contains(self.raw_output@, "Bitmap Index Scan"@)) {
                    1int
                } else {
                    0int
                },
                None => 0int,
            }),
    {
        let mut s: Vec<String> = Vec::new();
        if self.has_seq_scan() {
            s.push("Consider adding an index to avoid sequential scans".to_owned());
        }
        match self.cost_millionths {
            Some(c) => {
                if c > 100_000_000 && !self.has_index_scan() {
                    s.push("High cost without index usage - investigate index opportunities".to_owned());
                }
            },
            None => {},
        }
        s
    }
}

} // verus!
