use caboose::context::RequestContextTracker;
use caboose::database::{DatabaseHealth, IssueSeverity, IssueType, TableAccess, TableWarning, count_table_access};
use caboose::exception::{ExceptionSeverity, ExceptionTracker};
use caboose::parser::{HttpRequest, LogEvent, RailsError, RailsLogParser, SqlQuery};
use caboose::query::{
    NPlusOneDetector, PerformanceIssue, QueryAnalyzer, QueryFingerprint, QueryInfo, QueryType, RequestContext,
};

fn sample_select(duration_us: u64) -> QueryInfo {
    QueryInfo {
        raw_query: r#"SELECT "users".* FROM "users" WHERE "users"."id" = 1"#.to_string(),
        fingerprint: QueryFingerprint::new(r#"SELECT "users".* FROM "users" WHERE "users"."id" = 1"#),
        duration_us,
        rows: None,
        query_type: QueryType::Select,
    }
}

#[test]
fn fingerprint_normalizes_values() {
    let fp = QueryFingerprint::new("SELECT * FROM users WHERE id = 123 AND name = 'John'");
    assert_eq!(fp.normalized, "SELECT * FROM users WHERE id = ? AND name = ?");
}

#[test]
fn fingerprint_ignores_literal_values() {
    let a = QueryFingerprint::new("SELECT * FROM posts WHERE id = 123");
    let b = QueryFingerprint::new("SELECT * FROM posts WHERE id = 456");
    assert_eq!(a, b);
    let c = QueryFingerprint::new("SELECT  *\tFROM t WHERE a = $1 AND b = 'x y' AND c2 = 7");
    assert_eq!(c.normalized, "SELECT * FROM t WHERE a = ? AND b = ? AND c2 = ?");
}

#[test]
fn query_type_detection() {
    assert_eq!(QueryType::from_sql("select *"), QueryType::Select);
    assert_eq!(QueryType::from_sql("UPDATE x"), QueryType::Update);
    assert_eq!(QueryType::from_sql("COMMIT"), QueryType::Commit);
    assert_eq!(QueryType::from_sql("ALTER TABLE"), QueryType::Other);
}

#[test]
fn n_plus_one_detector_flags_repeated_selects() {
    let mut ctx = RequestContext::new(Some("/users".into()), 0);
    ctx.add_query(sample_select(2_000));
    ctx.add_query(sample_select(3_000));
    ctx.add_query(sample_select(4_000));
    let issues = NPlusOneDetector::detect(&ctx);
    assert_eq!(issues.len(), 1);
    let issue = &issues[0];
    assert_eq!(issue.count, 3);
    assert!(issue.suggestion.contains("includes"));
    assert_eq!(issue.total_duration_us, 9_000);
    assert_eq!(
        issue.suggestion,
        "Possible N+1 query detected (3 times). Consider using eager loading:\n  Model.includes(:user) instead of lazy loading"
    );
}

#[test]
fn n_plus_one_needs_more_than_two() {
    let mut ctx = RequestContext::new(Some("/users".into()), 0);
    ctx.add_query(sample_select(1_000));
    ctx.add_query(sample_select(1_000));
    assert!(NPlusOneDetector::detect(&ctx).is_empty());
    ctx.add_query(sample_select(1_000));
    let issues = NPlusOneDetector::detect(&ctx);
    assert_eq!(issues.len(), 1);
    assert_eq!(issues[0].count, 3);
    assert_eq!(ctx.total_query_time(), 3_000);
}

#[test]
fn tracks_slow_queries_and_tables() {
    let mut db = DatabaseHealth::new();
    let q = r#"SELECT * FROM "users" WHERE "users"."id" = 1"#;
    db.analyze_query(q, 120_000, 1);
    db.analyze_query(q, 130_000, 2);
    let slow = db.get_slow_queries();
    assert_eq!(slow.len(), 1);
    assert_eq!(slow[0].execution_count, 2);
    assert_eq!(slow[0].duration_us, 130_000);
    let stats = db.get_stats();
    assert_eq!(stats.table_count("users"), Some(2));
    assert_eq!(stats.select_star_count, 2);
}

#[test]
fn generates_issues_and_health_score() {
    let mut db = DatabaseHealth::new();
    for t in 0..11 {
        db.analyze_query(r#"SELECT name FROM "users" WHERE "users"."id" = 1"#, 120_000, t);
    }
    let issues = db.get_issues();
    assert!(issues.iter().any(|i| i.issue_type == IssueType::SlowQuery));
    assert!(issues.iter().any(|i| i.issue_type == IssueType::MissingIndex));
    let score = db.calculate_health_score();
    assert!(score < 100);
}

#[test]
fn perfect_health_when_no_issues() {
    let mut db = DatabaseHealth::new();
    db.analyze_query("SELECT id FROM users", 10_000, 1);
    db.analyze_query("SELECT name FROM users", 10_000, 2);
    assert_eq!(db.calculate_health_score(), 100);
}

#[test]
fn hundred_fast_queries_score_full() {
    let mut db = DatabaseHealth::new();
    for t in 0..100 {
        db.analyze_query("SELECT id FROM users", 10_000, t);
    }
    assert_eq!(db.calculate_health_score(), 100);
    assert!(db.get_issues().is_empty());
}

#[test]
fn eleven_slow_filtered_queries_score() {
    let mut db = DatabaseHealth::new();
    for t in 0..11 {
        db.analyze_query("SELECT name FROM users WHERE id = 1", 120_000, t);
    }
    let issues = db.get_issues();
    assert_eq!(issues.len(), 2);
    assert_eq!(issues[0].issue_type, IssueType::MissingIndex);
    assert_eq!(issues[0].severity, IssueSeverity::High);
    assert_eq!(issues[1].issue_type, IssueType::SlowQuery);
    assert_eq!(issues[1].severity, IssueSeverity::Medium);
    assert_eq!(db.calculate_health_score(), 90);
    assert_eq!(IssueSeverity::Critical.score(), 20);
}

#[test]
fn very_slow_query_is_reported() {
    let mut db = DatabaseHealth::new();
    db.analyze_query("UPDATE accounts SET x = 1", 1_500_000, 1);
    let issues = db.get_issues();
    assert_eq!(issues.len(), 1);
    assert_eq!(issues[0].severity, IssueSeverity::Critical);
    assert_eq!(issues[0].title, "Very slow query on table 'accounts': 1500.0ms");
    let top = db.get_top_tables();
    assert_eq!(top, vec![("accounts".to_string(), 1)]);
}

#[test]
fn table_counter_evicts_least_accessed() {
    let mut tables: Vec<TableAccess> = Vec::new();
    for i in 0..100 {
        let name: Vec<char> = format!("t{}", i).chars().collect();
        count_table_access(&mut tables, &name);
        if i != 37 {
            count_table_access(&mut tables, &name);
        }
    }
    assert_eq!(tables.len(), 100);
    let fresh: Vec<char> = "fresh".chars().collect();
    let warning = count_table_access(&mut tables, &fresh);
    assert_eq!(warning, Some(TableWarning::Evicted));
    assert_eq!(tables.len(), 100);
    assert!(tables.iter().all(|t| t.name != "t37"));
    assert!(tables.iter().any(|t| t.name == "fresh" && t.count == 1));
}

#[test]
fn table_counter_warns_near_capacity() {
    let mut tables: Vec<TableAccess> = Vec::new();
    for i in 0..90 {
        let name: Vec<char> = format!("t{}", i).chars().collect();
        assert_eq!(count_table_access(&mut tables, &name), None);
    }
    let name: Vec<char> = "t90".chars().collect();
    assert_eq!(count_table_access(&mut tables, &name), Some(TableWarning::ApproachingCapacity(90)));
}

#[test]
fn tracker_collects_requests_and_queries() {
    let mut tracker = RequestContextTracker::new();
    tracker.process_log_event(
        &LogEvent::HttpRequest(HttpRequest {
            method: "GET".into(),
            path: "/users".into(),
            status: None,
            duration_us: None,
            controller: None,
            action: None,
        }),
        1,
    );
    for t in 0..3 {
        tracker.process_log_event(
            &LogEvent::SqlQuery(SqlQuery {
                query: r#"SELECT "users".* FROM "users" WHERE "users"."id" = 1"#.into(),
                duration_us: Some(5_000),
                rows: Some(1),
                name: Some("User Load".into()),
            }),
            2 + t,
        );
    }
    tracker.process_log_event(
        &LogEvent::HttpRequest(HttpRequest {
            method: "GET".into(),
            path: "/users".into(),
            status: Some(200),
            duration_us: Some(30_000),
            controller: None,
            action: None,
        }),
        9,
    );
    let completed = tracker.get_recent_requests();
    assert_eq!(completed.len(), 1);
    assert_eq!(completed[0].context.query_count(), 3);
    assert_eq!(completed[0].n_plus_one_issues.len(), 1);
    assert_eq!(tracker.get_all_n_plus_one_issues().len(), 1);
    assert!(tracker.get_current_requests().is_empty());
}

#[test]
fn parses_exception_and_backtrace() {
    let mut tracker = ExceptionTracker::new();
    tracker.parse_line("NoMethodError: undefined method `foo' for nil:NilClass", 1);
    tracker.parse_line("  app/models/user.rb:12:in `block in find'", 2);
    tracker.parse_line("irrelevant line to end backtrace", 3);
    let stats = tracker.get_stats();
    assert_eq!(stats.total_exceptions, 1);
    assert_eq!(stats.high_count, 1);
    let groups = tracker.get_grouped_exceptions();
    assert_eq!(groups.len(), 1);
    assert_eq!(groups[0].sample_exception.file_path.as_deref(), Some("app/models/user.rb"));
    assert_eq!(groups[0].sample_exception.line_number, Some(12));
}

#[test]
fn backtrace_boundary_finalizes_one_exception() {
    let mut tracker = ExceptionTracker::new();
    tracker.parse_line("NoMethodError: undefined method 'foo'", 1);
    tracker.parse_line("  app/models/user.rb:12:in 'x'", 2);
    tracker.parse_line("unrelated line", 3);
    let recent = tracker.get_recent_exceptions(10);
    assert_eq!(recent.len(), 1);
    assert_eq!(recent[0].file_path.as_deref(), Some("app/models/user.rb"));
    assert_eq!(recent[0].line_number, Some(12));
    assert_eq!(recent[0].backtrace, vec!["app/models/user.rb:12:in 'x'".to_string()]);
}

#[test]
fn groups_similar_exceptions() {
    let mut tracker = ExceptionTracker::new();
    tracker.parse_line("NameError: undefined local variable or method `user_123'", 1);
    tracker.parse_line("  app/controllers/users_controller.rb:10:in `show'", 2);
    tracker.parse_line("done", 3);
    tracker.parse_line("NameError: undefined local variable or method `user_456'", 4);
    tracker.parse_line("  app/controllers/users_controller.rb:11:in `show'", 5);
    tracker.parse_line("done", 6);
    let groups = tracker.get_grouped_exceptions();
    assert_eq!(groups.len(), 1);
    assert_eq!(groups[0].count, 2);
    assert_eq!(ExceptionSeverity::from_exception_type(&groups[0].exception_type), ExceptionSeverity::High);
    assert!(tracker.get_exception_rate(10) >= 2);
}

#[test]
fn exception_fingerprint_normalizes_message() {
    let mut tracker = ExceptionTracker::new();
    tracker.parse_line("ActiveRecord::RecordNotFound (Couldn't find User with 'id'=42):", 1);
    assert!(tracker.get_grouped_exceptions().is_empty());
    tracker.parse_line("ActionController::RoutingError (No route matches [GET] \"/x/7\"):", 2);
    tracker.parse_line("next", 3);
    let groups = tracker.get_grouped_exceptions();
    assert_eq!(groups.len(), 1);
    assert_eq!(groups[0].fingerprint, "ActionController::RoutingError:No route matches [GET] \"STR\"");
    assert_eq!(tracker.get_stats().medium_count, 1);
    assert_eq!(ExceptionSeverity::from_exception_type("SystemStackError"), ExceptionSeverity::Critical);
    assert_eq!(ExceptionSeverity::Low.icon(), "i");
    tracker.clear_stats();
    assert!(tracker.get_grouped_exceptions().is_empty());
}

#[test]
fn parses_http_start_and_completion() {
    let start = RailsLogParser::parse_line(r#"Started GET "/users/1" for 127.0.0.1"#);
    match start {
        Some(LogEvent::HttpRequest(req)) => {
            assert_eq!(req.method, "GET");
            assert_eq!(req.path, "/users/1");
            assert!(req.status.is_none());
        }
        _ => panic!("Expected HTTP start"),
    }
    let done = RailsLogParser::parse_line("Completed 200 OK in 45.7ms");
    match done {
        Some(LogEvent::HttpRequest(req)) => {
            assert_eq!(req.status, Some(200));
            assert_eq!(req.duration_us, Some(45_700));
        }
        _ => panic!("Expected HTTP completion"),
    }
}

#[test]
fn parses_sql_and_error_lines() {
    let sql = RailsLogParser::parse_line(r#"User Load (0.5ms)  SELECT "users".* FROM "users""#);
    match sql {
        Some(LogEvent::SqlQuery(q)) => {
            assert_eq!(q.name.as_deref(), Some("User Load"));
            assert_eq!(q.duration_us, Some(500));
        }
        _ => panic!("Expected SQL event"),
    }
    let error = RailsLogParser::parse_line("FATAL -- Exception in thread");
    assert!(matches!(error, Some(LogEvent::Error(_))));
}

#[test]
fn highlights_sql_keywords() {
    let highlighted = RailsLogParser::highlight_sql("SELECT * FROM users WHERE id = 1");
    assert!(highlighted.contains("[KW]SELECT[/KW]"));
    assert!(highlighted.contains("[KW]FROM[/KW]"));
}

#[test]
fn single_line_request_wins_over_start() {
    let ev = RailsLogParser::parse_line("method=GET path=/x status=200 duration=12.3");
    match ev {
        Some(LogEvent::HttpRequest(req)) => {
            assert_eq!(req.method, "GET");
            assert_eq!(req.path, "/x");
            assert_eq!(req.status, Some(200));
            assert_eq!(req.duration_us, Some(12_300));
        }
        _ => panic!("Expected a complete request"),
    }
    let start = RailsLogParser::parse_line("method=POST path=/users format=html");
    match start {
        Some(LogEvent::HttpRequest(req)) => {
            assert_eq!(req.method, "POST");
            assert_eq!(req.path, "/users");
            assert!(req.status.is_none());
        }
        _ => panic!("Expected a request start"),
    }
}

#[test]
fn strips_timestamp_prefixes_and_comments() {
    let ev = RailsLogParser::parse_line(
        "D, [2024-01-15T10:30:45.043111 #6322] DEBUG -- : Started POST \"/posts\" for ::1",
    );
    match ev {
        Some(LogEvent::HttpRequest(req)) => {
            assert_eq!(req.method, "POST");
            assert_eq!(req.path, "/posts");
        }
        _ => panic!("Expected HTTP start"),
    }
    let q = RailsLogParser::parse_line("BEGIN /*application='Blog'*/");
    match q {
        Some(LogEvent::SqlQuery(q)) => {
            assert_eq!(q.query, "BEGIN");
            assert!(q.duration_us.is_none());
        }
        _ => panic!("Expected SQL event"),
    }
    let info = RailsLogParser::parse_line("Processing by UsersController#index as HTML");
    match info {
        Some(LogEvent::Info(t)) => assert_eq!(t, "Processing: UsersController#index"),
        _ => panic!("Expected info"),
    }
    assert!(RailsLogParser::parse_line("nothing to see").is_none());
}

#[test]
fn startup_errors_come_first() {
    match RailsLogParser::parse_line("Migrations are pending. Run `bin/rails db:migrate`") {
        Some(LogEvent::RailsStartupError(RailsError::PendingMigrations)) => {}
        _ => panic!("Expected pending migrations"),
    }
    match RailsLogParser::parse_line("FATAL: database \"blog_dev\" does not exist") {
        Some(LogEvent::RailsStartupError(RailsError::DatabaseNotFound(n))) => assert_eq!(n, "blog_dev"),
        _ => panic!("Expected missing database"),
    }
    match RailsLogParser::parse_line("Address already in use - bind(2) for port 4000") {
        Some(LogEvent::RailsStartupError(RailsError::PortInUse(p))) => assert_eq!(p, 4000),
        _ => panic!("Expected port in use"),
    }
    match RailsLogParser::parse_line("Could not find gem 'pg' in locally installed gems") {
        Some(LogEvent::RailsStartupError(RailsError::MissingGem(g))) => assert_eq!(g, "pg"),
        _ => panic!("Expected missing gem"),
    }
}

#[test]
fn query_analyzer_flags_select_star_and_slow_queries() {
    let info = QueryInfo {
        raw_query: "SELECT * FROM users WHERE users.id = 1".to_string(),
        fingerprint: QueryFingerprint::new("SELECT * FROM users WHERE users.id = 1"),
        duration_us: 120_000,
        rows: Some(200),
        query_type: QueryType::Select,
    };
    let recs = QueryAnalyzer::analyze(&info);
    assert!(recs.iter().any(|r| r.issue_type == PerformanceIssue::SelectStar));
    assert!(recs.iter().any(|r| r.issue_type == PerformanceIssue::SlowQuery));
    assert!(recs.iter().any(|r| r.issue_type == PerformanceIssue::LargeResultSet));
    let slow = recs
        .iter()
        .find(|r| r.issue_type == PerformanceIssue::SlowQuery)
        .expect("missing slow query recommendation");
    assert!(slow.suggestion.contains("indexes"));
    assert_eq!(slow.message, "Slow query: 120.0ms");
    assert_eq!(
        slow.migration_code.as_deref(),
        Some("# Add to migration:\nadd_index :users, :id\n\n# Or generate:\nrails g migration AddIndexToUsers id:index")
    );
}

#[test]
fn exception_counters_agree() {
    let mut tracker = ExceptionTracker::new();
    tracker.parse_line("NoMethodError: undefined method 'foo'", 1);
    tracker.parse_line("  app/models/user.rb:12:in 'x'", 2);
    tracker.parse_line("unrelated line", 3);
    let stats = tracker.get_stats();
    assert_eq!(stats.total_exceptions, 1);
    assert_eq!(stats.high_count, 1);
    assert_eq!(stats.unique_exceptions, 1);
    let recent = tracker.get_recent_exceptions(100);
    assert_eq!(recent.len(), 1);
    assert_eq!(recent[0].exception_type, "NoMethodError");
    for t in 0..12 {
        tracker.parse_line("NoMethodError: undefined method 'foo'", 10 + t);
        tracker.parse_line("done", 10 + t);
    }
    let groups = tracker.get_grouped_exceptions();
    assert_eq!(groups.len(), 1);
    assert_eq!(groups[0].count, 13);
    assert_eq!(groups[0].occurrences.len(), 10);
    assert_eq!(groups[0].occurrences[9], 21);
    assert_eq!(groups[0].first_seen, 3);
}

#[test]
fn fingerprint_ignores_mixed_literals() {
    let a = QueryFingerprint::new("SELECT * FROM t WHERE a = 1 AND b = 'x' AND c IN (2, 'yy')");
    let b = QueryFingerprint::new("SELECT * FROM t WHERE a = 99 AND b = 'other' AND c IN (7, 'z')");
    assert_eq!(a, b);
    assert_eq!(a.normalized, "SELECT * FROM t WHERE a = ? AND b = ? AND c IN (?, ?)");
    let p = QueryFingerprint::new("UPDATE t SET x = $1 WHERE id = $2");
    let q = QueryFingerprint::new("UPDATE t SET x = $7 WHERE id = $12");
    assert_eq!(p, q);
}
