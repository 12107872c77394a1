use rust_examples::{CompilationError, RecoveryStatistics, TestConfig, TestResult, ValidationReport};

#[test]
fn test_config_default() {
    let config = TestConfig::default();
    assert!(!config.no_std);
    assert!(!config.embedded_mode);
    assert_eq!(config.targets.len(), 1);
}

#[test]
fn test_config_embedded() {
    let config = TestConfig::embedded();
    assert!(config.no_std);
    assert!(config.embedded_mode);
    assert!(config.targets.len() > 1);
}

#[test]
fn crypto_config_adds_features() {
    let config = TestConfig::crypto();
    assert_eq!(config.features, vec!["crypto".to_string(), "zeroize".to_string()]);
    assert_eq!(config.compilation_timeout, 30_000);
}

#[test]
fn test_config_test_validation_report() {
    let mut report = ValidationReport::new();
    assert_eq!(report.success_rate_basis_points(), 0);
    let success_result = TestResult::success("test1".to_string(), "x86_64-unknown-linux-gnu".to_string(), 100);
    report.add_result(success_result);
    assert_eq!(report.success_rate_basis_points(), 10000);
    assert!(report.all_passed());
    let failure_result = TestResult::failure(
        "test2".to_string(),
        "x86_64-unknown-linux-gnu".to_string(),
        50,
        CompilationError::SyntaxError { message: "test error".to_string(), line: Some(1), column: Some(1) },
        "error output".to_string(),
    );
    report.add_result(failure_result);
    assert_eq!(report.success_rate_basis_points(), 5000);
    assert!(!report.all_passed());
    assert_eq!(report.total_duration, 150);
}

#[test]
fn test_validation_report_snippets() {
    let mut report = ValidationReport::new();
    report.mark_as_snippet("snippet1".to_string(), "incomplete code".to_string());
    assert_eq!(report.snippets, 1);
    assert_eq!(report.total_examples, 1);
    let snippet_result = &report.results[0];
    assert!(snippet_result.success);
    assert_eq!(snippet_result.target, "snippet");
    assert!(snippet_result.stdout.contains("incomplete code"));
}

#[test]
fn skipped_fragments_are_counted_with_reason() {
    let mut report = ValidationReport::new();
    report.skip_example("a_1".to_string(), "no target".to_string());
    assert_eq!(report.skipped, 1);
    assert_eq!(report.total_examples, 1);
    assert_eq!(report.results[0].target, "skipped");
    match &report.results[0].error {
        Some(CompilationError::CompilationFailed { exit_code, message }) => {
            assert_eq!(*exit_code, 0);
            assert_eq!(message, "Skipped: no target");
        }
        _ => panic!("expected a recorded skip"),
    }
    assert!(!report.all_passed());
}

#[test]
fn test_validation_report_recovery_tracking() {
    let mut report = ValidationReport::new();
    report.record_recovery("test1".to_string(), "fallback");
    report.record_recovery("test2".to_string(), "snippet");
    report.record_recovery("test3".to_string(), "feature_disable");
    assert_eq!(report.recovered, 3);
    assert_eq!(report.recovery_stats.fallback_attempts, 1);
    assert_eq!(report.recovery_stats.marked_as_snippets, 1);
    assert_eq!(report.recovery_stats.feature_disabling_attempts, 1);
    report.record_successful_recovery();
    report.record_failed_recovery();
    assert_eq!(report.recovery_stats.successful_recoveries, 1);
    assert_eq!(report.recovery_stats.failed_recoveries, 1);
}

#[test]
fn test_compilation_error_display() {
    let syntax_error = CompilationError::SyntaxError { message: "expected semicolon".to_string(), line: Some(5), column: Some(10) };
    let display = syntax_error.message();
    assert!(display.contains("Syntax error at line 5, column 10"));
    assert!(display.contains("expected semicolon"));
    let dependency_error = CompilationError::DependencyError { missing: vec!["embedded-hal".to_string(), "cortex-m".to_string()] };
    let display = dependency_error.message();
    assert!(display.contains("Missing dependencies: embedded-hal, cortex-m"));
    let timeout_error = CompilationError::TimeoutError { duration: 30_000 };
    let display = timeout_error.message();
    assert!(display.contains("Compilation timeout after 30s"));
}

#[test]
fn error_messages_of_every_kind() {
    assert_eq!(CompilationError::SyntaxError { message: "m".to_string(), line: None, column: Some(3) }.message(), "Syntax error: m");
    assert_eq!(CompilationError::FeatureError { unsupported: vec!["a".to_string()] }.message(), "Unsupported features: a");
    assert_eq!(
        CompilationError::TargetError { incompatible_target: "t".to_string(), reason: "r".to_string() }.message(),
        "Target 't' incompatible: r"
    );
    assert_eq!(CompilationError::TimeoutError { duration: 1500 }.message(), "Compilation timeout after 1.5s");
    assert_eq!(CompilationError::TimeoutError { duration: 250 }.message(), "Compilation timeout after 250ms");
    assert_eq!(CompilationError::TimeoutError { duration: 1005 }.message(), "Compilation timeout after 1.005s");
    assert_eq!(
        CompilationError::CompilationFailed { exit_code: -1, message: "boom".to_string() }.message(),
        "Compilation failed (exit code -1): boom"
    );
    assert_eq!(CompilationError::IoError { message: "disk".to_string() }.message(), "IO error: disk");
}

#[test]
fn test_recovery_statistics_default() {
    let stats = RecoveryStatistics::default();
    assert_eq!(stats.successful_recoveries, 0);
    assert_eq!(stats.failed_recoveries, 0);
    assert_eq!(stats.marked_as_snippets, 0);
    assert_eq!(stats.fallback_attempts, 0);
    assert_eq!(stats.feature_disabling_attempts, 0);
    assert_eq!(stats.timeout_extensions, 0);
}

#[test]
fn test_test_result_creation() {
    let success = TestResult::success("test_success".to_string(), "x86_64-unknown-linux-gnu".to_string(), 500);
    assert!(success.success);
    assert!(success.error.is_none());
    assert_eq!(success.example_id, "test_success");
    let failure = TestResult::failure(
        "test_failure".to_string(),
        "thumbv7em-none-eabihf".to_string(),
        200,
        CompilationError::TargetError { incompatible_target: "thumbv7em-none-eabihf".to_string(), reason: "missing target".to_string() },
        "target not found".to_string(),
    );
    assert!(!failure.success);
    assert!(failure.error.is_some());
    assert_eq!(failure.stderr, "target not found");
}
