use caboose::project::{
    EnvironmentInfo, FrontendApp, FrontendFramework, GitInfo, PackageManager, PackageManagerInfo, Procfile, RailsApp,
};
use caboose::config::{CabooseConfig, parse_env_content};
use caboose::explain::{ExplainExecutor, WarningSeverity, analyze_plan, format_explain};
use caboose::frontend_log::{FrontendLogEvent, FrontendLogParser};
use caboose::stats::{PerformanceStats, StatsCollector};

#[test]
fn parse_procfile_content_and_errors() {
    let ok = Procfile::parse_content("web: bundle exec rails s\nworker: sidekiq").unwrap();
    assert_eq!(ok.processes.len(), 2);
    assert_eq!(ok.processes[0].name, "web");
    assert_eq!(ok.processes[1].command, "sidekiq");

    let err = Procfile::parse_content("# only comments\n   \n");
    assert!(err.is_err());
}

#[test]
fn procfile_errors_name_the_line() {
    assert_eq!(
        Procfile::parse_content("web: rails s\nbroken line").unwrap_err(),
        "Invalid format at line 2: expected 'name: command'"
    );
    assert_eq!(Procfile::parse_content(": cmd").unwrap_err(), "Empty process name at line 1");
    assert_eq!(
        Procfile::parse_content("\n\nweb:   ").unwrap_err(),
        "Empty command for process 'web' at line 3"
    );
    assert_eq!(Procfile::parse_content("").unwrap_err(), "No processes found in Procfile");
    let ok = Procfile::parse_content("  web :  bin/rails server -b 0.0.0.0:3000 \r\n").unwrap();
    assert_eq!(ok.processes[0].name, "web");
    assert_eq!(ok.processes[0].command, "bin/rails server -b 0.0.0.0:3000");
}

#[test]
fn formats_git_info_short() {
    let info = GitInfo { branch: Some("main".into()), has_changes: true, ahead: 2, behind: 1 };
    let formatted = info.format_short();
    assert!(formatted.contains("main"));
    assert!(formatted.contains("*"));
    assert!(formatted.contains("↑2"));
    assert!(formatted.contains("↓1"));
    assert_eq!(formatted, "main * ↑2 ↓1");
    let empty = GitInfo { branch: None, has_changes: false, ahead: 0, behind: 0 };
    assert_eq!(empty.format_short(), "no git");
}

#[test]
fn frontend_entry_uses_package_manager() {
    let app = FrontendApp {
        detected: true,
        framework: Some(FrontendFramework::Vite),
        path: "frontend".into(),
        package_manager: PackageManager::from_lock_files(false, false, true),
    };
    assert_eq!(app.package_manager, PackageManager::Yarn);
    assert_eq!(app.generate_procfile_entry(None).unwrap(), "cd frontend && yarn run dev");
    assert_eq!(app.generate_procfile_entry(Some("make dev")).unwrap(), "cd frontend && make dev");
    assert_eq!(FrontendFramework::NextJs.default_port(), 3000);
    assert_eq!(FrontendFramework::VueCli.dev_command(), "npm run serve");
    assert_eq!(FrontendFramework::Angular.name(), "Angular");
    let none = FrontendApp { detected: false, framework: None, path: String::new(), package_manager: PackageManager::Npm };
    assert!(none.generate_procfile_entry(None).is_none());
}

#[test]
fn rails_procfile_lists_processes() {
    let app = RailsApp {
        detected: true,
        database: Some("postgresql".into()),
        background_job: Some("sidekiq".into()),
        asset_pipeline: Some("vite".into()),
    };
    assert_eq!(
        app.generate_procfile(None),
        "web: bundle exec rails server -p 3000\nworker: bundle exec sidekiq\nvite: bin/vite dev\n"
    );
    let plain = RailsApp { detected: true, database: None, background_job: None, asset_pipeline: None };
    assert_eq!(plain.generate_procfile(Some(4000)), "web: bundle exec rails server -p 4000\n");
}

#[test]
fn performance_stats_calculations() {
    let mut stats = PerformanceStats::default();
    stats.total_requests = 2;
    stats.total_duration_us = 50_000;
    stats.error_count = 1;
    stats.sql_queries = 2;
    stats.total_sql_duration_us = 10_000;
    assert_eq!(stats.avg_response_time_us(), 25_000);
    assert_eq!(stats.error_rate_percent(), 50);
    assert_eq!(stats.avg_sql_time_us(), 5_000);
}

#[test]
fn stats_collector_records_requests_and_sql() {
    let mut collector = StatsCollector::new();
    collector.record_request(200, 10_000);
    collector.record_request(500, 20_000);
    collector.record_sql_query(5_000);
    let stats = &collector.stats;
    assert_eq!(stats.total_requests, 2);
    assert_eq!(stats.error_count, 1);
    assert_eq!(stats.status_count(500), 1);
    assert_eq!(stats.sql_queries, 1);
    assert_eq!(stats.avg_response_time_us(), 15_000);
    assert_eq!(collector.get_response_time_history(), vec![10, 15]);
    collector.reset();
    assert_eq!(collector.stats.total_requests, 0);
}

#[test]
fn caboose_config_create_example_has_sections() {
    let example = CabooseConfig::create_example();
    assert!(example.contains("[frontend]"));
    assert!(example.contains("[rails]"));
    assert!(example.contains("process_name"));
}

#[test]
fn caboose_config_defaults() {
    let cfg = CabooseConfig::default();
    assert!(cfg.frontend.path.is_none());
    assert!(!cfg.frontend.disable_auto_detect);
    assert_eq!(cfg.processes.len(), 0);
}

fn names(list: &[&str]) -> Vec<String> {
    list.iter().map(|s| s.to_string()).collect()
}

#[test]
fn detects_vite_frontend_and_package_manager() {
    let files = names(&["package.json", "vite.config.js", "yarn.lock"]);
    let app = FrontendApp::from_files("client", &files, r#"{"name":"demo"}"#).unwrap();
    assert!(app.detected);
    assert_eq!(app.framework, Some(FrontendFramework::Vite));
    assert_eq!(app.package_manager, PackageManager::Yarn);
    assert!(app.generate_procfile_entry(None).unwrap().contains("yarn run dev"));
}

#[test]
fn package_manager_detection_defaults_to_npm() {
    let files = names(&["package.json", "next.config.js"]);
    let app = FrontendApp::from_files("web", &files, "{}").unwrap();
    assert_eq!(app.package_manager, PackageManager::Npm);
    assert_eq!(app.framework.unwrap().default_port(), 3000);
}

#[test]
fn frontend_detection_needs_package_json_and_framework() {
    assert!(FrontendApp::from_files("x", &names(&["vite.config.js"]), "").is_none());
    assert!(FrontendApp::from_files("x", &names(&["package.json"]), "{}").is_none());
    let cra = FrontendApp::from_files("x", &names(&["package.json", "bun.lockb"]), r#"{"dependencies":{"react-scripts":"5"}}"#)
        .unwrap();
    assert_eq!(cra.framework, Some(FrontendFramework::CreateReactApp));
    assert_eq!(cra.package_manager, PackageManager::Bun);
    assert!(!FrontendApp::not_found().detected);
}

#[test]
fn detects_rails_app_and_features() {
    let app = RailsApp::from_files(
        true,
        Some("gem 'rails'\ngem 'sidekiq'\ngem 'vite_rails'"),
        Some("adapter: postgresql"),
    );
    assert!(app.detected);
    assert_eq!(app.database.as_deref(), Some("postgresql"));
    assert_eq!(app.background_job.as_deref(), Some("sidekiq"));
    assert_eq!(app.asset_pipeline.as_deref(), Some("vite"));
    assert!(app.generate_procfile(None).contains("bundle exec sidekiq"));
    let none = RailsApp::from_files(false, Some("gem 'sidekiq'"), None);
    assert!(!none.detected && none.background_job.is_none());
}

#[test]
fn frontend_log_events() {
    match FrontendLogParser::parse_line("  ➜  Local:   http://localhost:5173/") {
        Some(FrontendLogEvent::ServerStart { port }) => assert_eq!(port, 5173),
        _ => panic!("expected server start"),
    }
    match FrontendLogParser::parse_line("ready - started server on 0.0.0.0, port 3000 url") {
        Some(FrontendLogEvent::ServerStart { port }) => assert_eq!(port, 3000),
        _ => panic!("expected server start"),
    }
    assert!(matches!(FrontendLogParser::parse_line("Compiling /page ..."), Some(FrontendLogEvent::CompileStart)));
    match FrontendLogParser::parse_line("✓ built in 512ms") {
        Some(FrontendLogEvent::CompileSuccess { duration_us }) => assert_eq!(duration_us, 512_000),
        _ => panic!("expected compile success"),
    }
    match FrontendLogParser::parse_line("Compiled successfully in 1.25s (42 modules)") {
        Some(FrontendLogEvent::CompileSuccess { duration_us }) => assert_eq!(duration_us, 1_250_000),
        _ => panic!("expected compile success"),
    }
    match FrontendLogParser::parse_line("10:00:00 AM [vite] hmr update /src/App.tsx") {
        Some(FrontendLogEvent::HotModuleReplacement { file }) => assert_eq!(file, "/src/App.tsx"),
        _ => panic!("expected hmr"),
    }
    assert!(matches!(FrontendLogParser::parse_line("Failed to compile."), Some(FrontendLogEvent::Error { .. })));
    assert!(matches!(FrontendLogParser::parse_line("WARNING in ./src"), Some(FrontendLogEvent::BuildWarning { .. })));
    assert!(FrontendLogParser::parse_line("plain text").is_none());
}

#[test]
fn explain_executor_simulates_plan_with_warnings() {
    let exec = ExplainExecutor::new(None);
    let plan = exec.explain_query("SELECT * FROM users").unwrap();
    assert!(plan.has_seq_scan());
    assert!(!plan.has_index_scan());
    assert!(plan.suggest_indexes().iter().any(|s| s.contains("index")));
    let severities: Vec<_> = plan.warnings.iter().map(|w| w.severity).collect();
    assert!(severities.contains(&WarningSeverity::Warning));
    assert_eq!(plan.formatted, "Seq Scan on users  (cost=0.00..15.00 rows=500 width=32)\n  Filter: (active = true)");
}

#[test]
fn plan_analysis_reads_cost_and_rows() {
    let w = analyze_plan("Index Scan using idx  (cost=0.42..2500.50 rows=20000 width=8)");
    assert_eq!(w.len(), 2);
    assert_eq!(w[0].severity, WarningSeverity::Critical);
    assert_eq!(w[0].message, "Very high query cost: 2500.50");
    assert_eq!(w[1].message, "Large result set estimated: 20000 rows");
    assert_eq!(format_explain("a\n    b"), "a\n    b");
}

#[test]
fn test_format_segment() {
    let env = EnvironmentInfo {
        current_path: ".../work/app".into(),
        ruby_version: Some("3.2.0".into()),
        node_version: None,
        package_manager: Some(PackageManagerInfo { name: "yarn".into(), version: "1.22".into() }),
        rails_version: None,
        database: Some("PostgreSQL".into()),
    };
    let segments = env.format_segment();
    assert!(!segments.is_empty());
    assert_eq!(segments, vec!["📁 .../work/app", "💎 3.2.0", "📦 yarn 1.22", "🗄️ PostgreSQL"]);
}

#[test]
fn load_env_parses_values() {
    let (vars, bad) = parse_env_content("FOO=bar\n#comment\nNUMBER=\"123\"\nINVALID\n");
    assert_eq!(vars, vec![("FOO".to_string(), "bar".to_string()), ("NUMBER".to_string(), "123".to_string())]);
    assert_eq!(bad, vec![4]);
    let (again, _) = parse_env_content("A=1\nA = 2 ");
    assert_eq!(again, vec![("A".to_string(), "2".to_string())]);
}

#[test]
fn tool_versions_from_output() {
    assert_eq!(EnvironmentInfo::ruby_version_from("ruby 3.2.0p0 (2023-03-30) [x86_64]").as_deref(), Some("3.2.0"));
    assert_eq!(EnvironmentInfo::rails_version_from("Rails 7.0.4\n").as_deref(), Some("7.0.4"));
    assert_eq!(EnvironmentInfo::node_version_from("v20.1.0\n"), "20.1.0");
    assert_eq!(EnvironmentInfo::database_from("adapter: postgresql", false).as_deref(), Some("PostgreSQL"));
    assert_eq!(EnvironmentInfo::database_from("gem 'mysql2'", true).as_deref(), Some("MySQL"));
    assert!(EnvironmentInfo::ruby_version_from("ruby").is_none());
}
