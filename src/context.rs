//! Grouping of query activity into the request that caused it.
use vstd::prelude::*;
use crate::parser::{HttpRequest, LogEvent, SqlQuery};
use crate::query::{n_plus_one_result, NPlusOneDetector, NPlusOneIssue, QueryInfo, RequestContext, fingerprint_of, query_type_of};
use crate::text::{chars_of, same_chars};

verus! {

/// A finished request with the N+1 issues found in it.
#[derive(Debug, Clone)]
pub struct CompletedRequest {
    pub context: RequestContext,
    pub n_plus_one_issues: Vec<NPlusOneIssue>,
    /// Duration in microseconds, as the completion line gave it.
    pub total_duration_us: Option<u64>,
    pub status: Option<u16>,
    pub completed_at: u64,
}

pub const MAX_COMPLETED_REQUESTS: usize = 100;

/// `cs` without the contexts whose path is `p`.
pub open spec fn without_path(cs: Seq<RequestContext>, p: Seq<char>) -> Seq<RequestContext>
    decreases cs.len(),
{
    if cs.len() == 0 {
        cs
    } else {
        let rest = without_path(cs.drop_last(), p);
        if cs.last().path matches Some(q) && q@ == p {
            rest
        } else {
            rest.push(cs.last())
        }
    }
}

/// `q` is the query that a query line `sql` adds to a request.
pub open spec fn query_from(q: QueryInfo, sql: SqlQuery) -> bool {
    &&& q.raw_query@ == sql.query@
    &&& q.fingerprint.normalized@ == fingerprint_of(sql.query@)
    &&& q.duration_us == match sql.duration_us {
        Some(d) => d,
        None => 0,
    }
    &&& q.rows == sql.rows
    &&& q.query_type == query_type_of(sql.query@)
}

/// Tracks in-flight requests, newest last, and a bounded list of completed
/// ones, oldest first.
pub struct RequestContextTracker {
    pub current_requests: Vec<RequestContext>,
    pub completed_requests: Vec<CompletedRequest>,
}

impl RequestContextTracker {
    /// At most a hundred completed requests are kept.
    pub open spec fn wf(&self) -> bool {
        self.completed_requests@.len() <= MAX_COMPLETED_REQUESTS
    }

    pub fn new() -> (r: RequestContextTracker)
        ensures
            r.wf(),
            r.current_requests@.len() == 0,
            r.completed_requests@.len() == 0,
    {
        RequestContextTracker { current_requests: Vec::new(), completed_requests: Vec::new() }
    }

    /// Opens a context for the request's path, replacing an unfinished one for
    /// the same path. A request without a path is ignored.
    fn start_request(&mut self, req: &HttpRequest, now: u64)
        requires
            old(self).wf(),
        ensures
            final(self).wf(),
            final(self).completed_requests == old(self).completed_requests,
            started(old(self).current_requests@, final(self).current_requests@, req.path@, now),
    {
        let p = chars_of(req.path.as_str());
        if p.len() == 0 {
            return;
        }
        let ghost before = self.current_requests@;
        let mut kept: Vec<RequestContext> = Vec::new();
        let mut i: usize = 0;
        let n = self.current_requests.len();
        let mut old_list: Vec<RequestContext> = Vec::new();
        std::mem::swap(&mut old_list, &mut self.current_requests);
        assert(old_list@ == before);
        while old_list.len() > 0
            invariant
                i + old_list@.len() == n,
                n == before.len(),
                old_list@ == before.subrange(i as int, n as int),
                kept@ == without_path(before.take(i as int), p@),
            decreases old_list.len(),
        {
            let c = old_list.remove(0);
            assert(before.take(i + 1).drop_last() == before.take(i as int));
            assert(before.take(i + 1).last() == c);
            let same = match &c.path {
                Some(q) => {
                    let qc = chars_of(q.as_str());
                    same_chars(&qc, &p)
                },
                None => false,
            };
            if !same {
                kept.push(c);
            }
            i += 1;
        }
        assert(before.take(n as int) == before);
        let ghost mid = kept@;
        kept.push(RequestContext::new(Some(req.path.clone()), now));
        assert(kept@.drop_last() == mid);
        self.current_requests = kept;
    }

    /// Adds the query to the most recently opened request, if one is open.
    fn add_query_to_current_request(&mut self, sql: &SqlQuery)
        requires
            old(self).wf(),
        ensures
            final(self).wf(),
            final(self).completed_requests == old(self).completed_requests,
            added(old(self).current_requests@, final(self).current_requests@, *sql),
    {
        let n = self.current_requests.len();
        if n == 0 {
            return;
        }
        let d = match sql.duration_us {
            Some(d) => d,
            None => 0,
        };
        let info = QueryInfo::new(sql.query.as_str(), d, sql.rows);
        let ghost before = self.current_requests@;
        let mut ctx = self.current_requests.pop().unwrap();
        assert(self.current_requests@ == before.drop_last());
        let ghost old_queries = ctx.queries@;
        ctx.add_query(info);
        assert(ctx.queries@.drop_last() == old_queries);
        self.current_requests.push(ctx);
        assert(self.current_requests@.drop_last() == before.drop_last());
    }

    /// Closes the most recently opened request: its N+1 issues are found and
    /// it joins the completed list, whose oldest entry leaves past a hundred.
    fn complete_request(&mut self, req: &HttpRequest, now: u64)
        requires
            old(self).wf(),
        ensures
            final(self).wf(),
            completed(*old(self), *final(self), *req, now),
    {
        match self.current_requests.pop() {
            Some(context) => {
                let issues = NPlusOneDetector::detect(&context);
                let ghost before = self.completed_requests@;
                self.completed_requests.push(CompletedRequest {
                    context,
                    n_plus_one_issues: issues,
                    total_duration_us: req.duration_us,
                    status: req.status,
                    completed_at: now,
                });
                if self.completed_requests.len() > MAX_COMPLETED_REQUESTS {
                    self.completed_requests.remove(0);
                    assert(self.completed_requests@.drop_last() =~= before.skip(1));
                } else {
                    assert(self.completed_requests@.drop_last() =~= before.skip(0));
                }
            },
            None => {},
        }
    }

    /// Feeds one signal, seen at time `now`: a request start opens a context,
    /// a query joins the open one, a completion closes it.
    pub fn process_log_event(&mut self, event: &LogEvent, now: u64)
        requires
            old(self).wf(),
        ensures
            final(self).wf(),
            match *event {
                LogEvent::HttpRequest(req) => if req.status is None {
                    &&& final(self).completed_requests == old(self).completed_requests
                    &&& started(old(self).current_requests@, final(self).current_requests@, req.path@, now)
                } else {
                    completed(*old(self), *final(self), req, now)
                },
                LogEvent::SqlQuery(sql) => {
                    &&& final(self).completed_requests == old(self).completed_requests
                    &&& added(old(self).current_requests@, final(self).current_requests@, sql)
                },
                _ => *final(self) == *old(self),
            },
    {
        match event {
            LogEvent::HttpRequest(req) => {
                if req.status.is_none() {
                    self.start_request(req, now);
                } else {
                    self.complete_request(req, now);
                }
            },
            LogEvent::SqlQuery(sql) => {
                self.add_query_to_current_request(sql);
            },
            _ => {},
        }
    }

    /// The completed requests, oldest first.
    pub fn get_recent_requests(&self) -> (r: &Vec<CompletedRequest>)
        ensures
            r@ == self.completed_requests@,
    {
        &self.completed_requests
    }

    /// The requests still open, oldest first.
    pub fn get_current_requests(&self) -> (r: &Vec<RequestContext>)
        ensures
            r@ == self.current_requests@,
    {
        &self.current_requests
    }

    /// The N+1 issues of all completed requests, in order.
    pub fn get_all_n_plus_one_issues(&self) -> (r: Vec<NPlusOneIssue>)
        ensures
            r@.len() == all_issues(self.completed_requests@).len(),
            forall|k: int| 0 <= k < r@.len() ==> (#[trigger] r@[k]).count == all_issues(self.completed_requests@)[k].count
                && r@[k].fingerprint == all_issues(self.completed_requests@)[k].fingerprint
                && r@[k].sample_query == all_issues(self.completed_requests@)[k].sample_query,
    {
        let mut r: Vec<NPlusOneIssue> = Vec::new();
        let mut i: usize = 0;
        while i < self.completed_requests.len()
            invariant
                i <= self.completed_requests@.len(),
                r@.len() == all_issues(self.completed_requests@.take(i as int)).len(),
                forall|k: int| 0 <= k < r@.len() ==> (#[trigger] r@[k]).count == all_issues(self.completed_requests@.take(i as int))[k].count
                    && r@[k].fingerprint == all_issues(self.completed_requests@.take(i as int))[k].fingerprint
                    && r@[k].sample_query == all_issues(self.completed_requests@.take(i as int))[k].sample_query,
            decreases self.completed_requests.len() - i,
        {
            let ghost prev = all_issues(self.completed_requests@.take(i as int));
            assert(self.completed_requests@.take(i + 1).drop_last() == self.completed_requests@.take(i as int));
            let issues = &self.completed_requests[i].n_plus_one_issues;
            let mut j: usize = 0;
            while j < issues.len()
                invariant
                    j <= issues@.len(),
                    r@.len() == prev.len() + j,
                    forall|k: int| 0 <= k < r@.len() ==> (#[trigger] r@[k]).count == (prev + issues@)[k].count
                        && r@[k].fingerprint == (prev + issues@)[k].fingerprint
                        && r@[k].sample_query == (prev + issues@)[k].sample_query,
                decreases issues.len() - j,
            {
                r.push(issues[j].duplicate());
                j += 1;
            }
            i += 1;
        }
        assert(self.completed_requests@.take(self.completed_requests@.len() as int) == self.completed_requests@);
        r
    }
}

/// The N+1 issues of the requests `rs`, request by request.
pub open spec fn all_issues(rs: Seq<CompletedRequest>) -> Seq<NPlusOneIssue>
    decreases rs.len(),
{
    if rs.len() == 0 {
        Seq::empty()
    } else {
        all_issues(rs.drop_last()) + rs.last().n_plus_one_issues@
    }
}

/// Starting a request for path `p` at `now`: unless `p` is empty, the
/// contexts for `p` are dropped and a fresh one is opened last.
pub open spec fn started(before: Seq<RequestContext>, after: Seq<RequestContext>, p: Seq<char>, now: u64) -> bool {
    if p.len() == 0 {
        after == before
    } else {
        &&& after.len() > 0
        &&& after.drop_last() == without_path(before, p)
        &&& after.last().path matches Some(q) && q@ == p
        &&& after.last().queries@.len() == 0
        &&& after.last().start_time == now
    }
}

/// Adding the query of line `sql`: it joins the most recently opened context.
pub open spec fn added(before: Seq<RequestContext>, after: Seq<RequestContext>, sql: SqlQuery) -> bool {
    if before.len() == 0 {
        after == before
    } else {
        &&& after.len() == before.len()
        &&& after.drop_last() == before.drop_last()
        &&& after.last().path == before.last().path
        &&& after.last().start_time == before.last().start_time
        &&& after.last().queries@.len() == before.last().queries@.len() + 1
        &&& after.last().queries@.drop_last() == before.last().queries@
        &&& query_from(after.last().queries@.last(), sql)
    }
}

/// Completing a request: the most recently opened context is closed with its
/// N+1 issues and the completion's status and duration.
pub open spec fn completed(before: RequestContextTracker, after: RequestContextTracker, req: HttpRequest, now: u64) -> bool {
    let cs = before.current_requests@;
    if cs.len() == 0 {
        after.current_requests@ == cs && after.completed_requests@ == before.completed_requests@
    } else {
        let done = after.completed_requests@.last();
        &&& after.current_requests@ == cs.drop_last()
        &&& after.completed_requests@.len() > 0
        &&& done.context == cs.last()
        &&& n_plus_one_result(cs.last().queries@, done.n_plus_one_issues@)
        &&& done.status == req.status
        &&& done.total_duration_us == req.duration_us
        &&& done.completed_at == now
        &&& after.completed_requests@.drop_last() == before.completed_requests@.skip(
            if before.completed_requests@.len() >= MAX_COMPLETED_REQUESTS { 1int } else { 0int },
        )
    }
}

} // verus!
