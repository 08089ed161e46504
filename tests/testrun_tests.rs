use caboose::testrun::{DebuggerType, TestFramework, TestResult, TestStatus, TestTracker};

fn result(name: &str, status: TestStatus, duration_us: u64) -> TestResult {
    TestResult {
        test_name: name.into(),
        file_path: None,
        line_number: None,
        status,
        duration_us: Some(duration_us),
        failure_message: None,
        backtrace: None,
        timestamp: 0,
    }
}

#[test]
fn test_run_success_rate_and_results() {
    let mut tracker = TestTracker::new();
    tracker.start_test_run(TestFramework::RSpec, 1);
    tracker.add_test_result(result("passes", TestStatus::Passed, 150_000));
    tracker.add_test_result(result("fails", TestStatus::Failed, 50_000));
    assert_eq!(tracker.get_current_run().as_ref().unwrap().success_rate_percent(), 50);
    assert_eq!(tracker.get_current_run().as_ref().unwrap().failed_tests().len(), 1);
    tracker.complete_test_run(Some(200_000), 2);
    let stats = tracker.get_stats();
    assert_eq!(stats.total_runs, 1);
    assert_eq!(stats.total_tests_run, 2);
    assert_eq!(stats.total_failed, 1);
    assert!(!stats.slowest_tests.is_empty());
    assert_eq!(stats.slowest_tests[0].test_name, "passes");
    assert_eq!(stats.average_duration_us, Some(200_000));
}

#[test]
fn detects_framework_and_parses_minitest_summary() {
    let mut tracker = TestTracker::new();
    tracker.parse_line("Minitest", 1);
    tracker.parse_line("Finished in 0.123s", 2);
    tracker.parse_line("1 runs, 2 assertions, 1 failures, 0 errors, 0 skips", 3);
    let stats = tracker.get_stats();
    assert_eq!(stats.total_runs, 1);
    assert_eq!(stats.total_tests_run, 0);
    assert_eq!(stats.total_failed, 0);
    assert_eq!(stats.average_duration_us, Some(123_000));
}

#[test]
fn minitest_failures_count_before_finish() {
    let mut tracker = TestTracker::new();
    tracker.parse_line("Run options: --seed 1 (minitest)", 1);
    tracker.parse_line("3 runs, 4 assertions, 2 failures, 0 errors, 0 skips", 2);
    assert_eq!(tracker.get_current_run().as_ref().unwrap().failed, 2);
}

#[test]
fn rspec_summary_finishes_run() {
    let mut tracker = TestTracker::new();
    tracker.parse_line("rspec ./spec/models/user_spec.rb", 1);
    tracker.parse_line("Finished in 1.5 seconds (files took 0.2 seconds to load) 3 examples, 0 failures", 2);
    assert_eq!(tracker.get_stats().total_runs, 1);
    assert_eq!(tracker.get_recent_runs()[0].duration_us, Some(1_500_000));
}

#[test]
fn detects_debugger_activation() {
    let mut tracker = TestTracker::new();
    tracker.parse_line("From: /app/foo.rb:42 [byebug]", 1);
    assert!(tracker.is_debugger_active());
    let info = tracker.get_debugger_info().as_ref().unwrap();
    assert_eq!(info.debugger_type, DebuggerType::Byebug);
    assert_eq!(info.file_path.as_deref(), Some("/app/foo.rb"));
    assert_eq!(info.line_number, Some(42));
    tracker.clear_debugger();
    assert!(!tracker.is_debugger_active());
}
