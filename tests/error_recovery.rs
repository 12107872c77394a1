use rust_examples::error_recovery::{Attempt, AttemptStep};
use rust_examples::{
    Annotations, CodeExample, CompilationError, DegradationStrategy, ErrorRecoveryManager, ExampleContext,
    GracefulDegradationManager, RecoveryAction, TestConfig, TestResult, ValidationReport,
};

fn example(id: &str, code: &str, context: ExampleContext) -> CodeExample {
    CodeExample {
        id: id.to_string(),
        source_file: "test.md".to_string(),
        line_number: 1,
        code: code.to_string(),
        context,
        annotations: Annotations::new(),
        dependencies: vec![],
    }
}

#[test]
fn test_error_recovery_manager_creation() {
    let manager = ErrorRecoveryManager::default();
    assert_eq!(manager.max_retries(), 3);
    assert!(!manager.fallback_targets().is_empty());
}

#[test]
fn test_syntax_error_recovery() {
    let mut manager = ErrorRecoveryManager::default();
    let example = example("test", "let x = ", ExampleContext::Snippet { reason: "test".to_string() });
    let error = CompilationError::SyntaxError { message: "unexpected end of file".to_string(), line: Some(1), column: Some(8) };
    let action = manager.determine_recovery_action(&error, &example, &TestConfig::default(), 0);
    match action {
        RecoveryAction::MarkAsSnippet { reason } => {
            assert!(reason.contains("fragment") || reason.contains("incomplete"));
        }
        _ => panic!("Expected MarkAsSnippet action, got: {:?}", action),
    }
}

#[test]
fn test_dependency_error_recovery() {
    let mut manager = ErrorRecoveryManager::default();
    let example = example(
        "test",
        "use embedded_hal::digital::v2::OutputPin;",
        ExampleContext::NoStd { target: "thumbv7em-none-eabihf".to_string(), features: vec![] },
    );
    let error = CompilationError::DependencyError { missing: vec!["embedded-hal".to_string()] };
    let action = manager.determine_recovery_action(&error, &example, &TestConfig::default(), 0);
    match action {
        RecoveryAction::Retry { config, reason } => {
            assert!(config.features.contains(&"embedded".to_string()));
            assert!(reason.contains("embedded-hal"));
        }
        _ => panic!("Expected Retry action"),
    }
}

#[test]
fn test_graceful_degradation_manager() {
    let mut manager = GracefulDegradationManager::default();
    assert!(!manager.is_degraded());
    manager.update_failure_rate(2, 10);
    assert!(manager.is_degraded());
    manager.update_failure_rate(8, 10);
    assert!(!manager.is_degraded());
}

#[test]
fn test_complex_example_detection() {
    let manager = GracefulDegradationManager::default();
    let simple_example = example("simple", "let x = 42;", ExampleContext::Std { features: vec![] });
    let complex_example = example(
        "complex",
        "unsafe impl Send for MyStruct {}\nimpl MyTrait for MyStruct {}\nmacro_rules! my_macro { () => {} }",
        ExampleContext::Std { features: vec![] },
    );
    assert!(!manager.is_complex_example(&simple_example));
    assert!(manager.is_complex_example(&complex_example));
}

#[test]
fn test_complete_error_recovery_workflow() {
    let mut recovery_manager = ErrorRecoveryManager::default();
    let mut degradation_manager = GracefulDegradationManager::default();
    let mut validation_report = ValidationReport::new();
    let examples = vec![
        example("syntax_error", "let x = ", ExampleContext::Std { features: vec![] }),
        CodeExample {
            line_number: 10,
            ..example(
                "missing_dep",
                "use embedded_hal::digital::v2::OutputPin;",
                ExampleContext::NoStd { target: "thumbv7em-none-eabihf".to_string(), features: vec![] },
            )
        },
    ];
    for example in &examples {
        let error = match example.id.as_str() {
            "syntax_error" => CompilationError::SyntaxError { message: "unexpected end of file".to_string(), line: Some(1), column: Some(8) },
            "missing_dep" => CompilationError::DependencyError { missing: vec!["embedded-hal".to_string()] },
            _ => continue,
        };
        let action = recovery_manager.determine_recovery_action(&error, example, &TestConfig::default(), 0);
        match action {
            RecoveryAction::MarkAsSnippet { reason } => {
                validation_report.mark_as_snippet(example.id.clone(), reason);
                validation_report.record_recovery(example.id.clone(), "snippet");
            }
            RecoveryAction::Retry { config: _, reason: _ } => {
                validation_report.record_successful_recovery();
                let success_result = TestResult::success(example.id.clone(), "x86_64-unknown-linux-gnu".to_string(), 100);
                validation_report.add_result(success_result);
            }
            RecoveryAction::Skip { reason } => {
                validation_report.skip_example(example.id.clone(), reason);
            }
            _ => {}
        }
    }
    degradation_manager.update_failure_rate(1, 10);
    assert!(degradation_manager.is_degraded());
    assert!(validation_report.recovery_stats.successful_recoveries > 0 || validation_report.recovery_stats.marked_as_snippets > 0);
    assert!(validation_report.total_examples > 0);
    assert_eq!(degradation_manager.failure_rate_basis_points(), 9000);
}

#[test]
fn syntax_error_in_incomplete_code_marks_fragment() {
    let mut manager = ErrorRecoveryManager::default();
    let example = example("x", "let x = ", ExampleContext::Std { features: vec![] });
    let error = CompilationError::SyntaxError { message: "expected expression".to_string(), line: None, column: None };
    match manager.determine_recovery_action(&error, &example, &TestConfig::default(), 0) {
        RecoveryAction::MarkAsSnippet { reason } => assert_eq!(reason, "Syntax error suggests incomplete code snippet: expected expression"),
        other => panic!("unexpected {:?}", other),
    }
}

#[test]
fn syntax_error_in_complete_code_is_skipped_with_location() {
    let manager = ErrorRecoveryManager::default();
    let code = "fn main() {\n    let x: i32 = \"s\";\n}";
    let error = CompilationError::SyntaxError { message: "mismatched types".to_string(), line: Some(2), column: Some(18) };
    match manager.decide(&error, code, &TestConfig::default(), 0) {
        RecoveryAction::Skip { reason } => assert_eq!(reason, "Syntax error at line Some(2), column Some(18): mismatched types"),
        other => panic!("unexpected {:?}", other),
    }
    match manager.decide(&error, code, &TestConfig::default(), 3) {
        RecoveryAction::Skip { reason } => assert_eq!(reason, "Syntax error persists after 3 retries: mismatched types"),
        other => panic!("unexpected {:?}", other),
    }
}

#[test]
fn feature_errors_disable_only_optional_features() {
    let manager = ErrorRecoveryManager::default();
    let mut config = TestConfig::default();
    config.features = vec!["hardware".to_string(), "std".to_string()];
    let error = CompilationError::FeatureError { unsupported: vec!["hardware".to_string()] };
    match manager.decide(&error, "fn main() {}", &config, 0) {
        RecoveryAction::Retry { config, reason } => {
            assert_eq!(config.features, vec!["std".to_string()]);
            assert_eq!(reason, "Disabling optional features: hardware");
        }
        other => panic!("unexpected {:?}", other),
    }
    let error = CompilationError::FeatureError { unsupported: vec!["simd".to_string()] };
    match manager.decide(&error, "fn main() {}", &config, 0) {
        RecoveryAction::Skip { reason } => assert_eq!(reason, "Unsupported features required: simd"),
        other => panic!("unexpected {:?}", other),
    }
}

#[test]
fn target_errors_fall_back_to_untried_targets() {
    let manager = ErrorRecoveryManager::default();
    let config = TestConfig::default();
    let error = CompilationError::TargetError { incompatible_target: "thumbv7em-none-eabihf".to_string(), reason: "missing".to_string() };
    match manager.decide(&error, "fn main() {}", &config, 0) {
        RecoveryAction::Fallback { target, disable_features } => {
            assert_eq!(target, "thumbv6m-none-eabi");
            assert_eq!(disable_features, vec!["std".to_string()]);
        }
        other => panic!("unexpected {:?}", other),
    }
    match manager.decide(&error, "fn main() {}", &config, 3) {
        RecoveryAction::Skip { reason } => assert_eq!(reason, "No compatible target found. Original error: missing"),
        other => panic!("unexpected {:?}", other),
    }
}

#[test]
fn timeouts_double_the_limit() {
    let manager = ErrorRecoveryManager::default();
    let error = CompilationError::TimeoutError { duration: 30_000 };
    match manager.decide(&error, "fn main() {}", &TestConfig::default(), 1) {
        RecoveryAction::Retry { config, reason } => {
            assert_eq!(config.compilation_timeout, 60_000);
            assert_eq!(reason, "Increasing timeout from 30s to 60s");
        }
        other => panic!("unexpected {:?}", other),
    }
    match manager.decide(&error, "fn main() {}", &TestConfig::default(), 3) {
        RecoveryAction::Skip { reason } => assert_eq!(reason, "Compilation timeout after 30s (tried 3 times)"),
        other => panic!("unexpected {:?}", other),
    }
}

#[test]
fn compilation_failures_by_signature() {
    let manager = ErrorRecoveryManager::default();
    let config = TestConfig::default();
    let missing_main = CompilationError::CompilationFailed { exit_code: 101, message: "cannot find function `main`".to_string() };
    assert!(matches!(manager.decide(&missing_main, "fn f() {}", &config, 0), RecoveryAction::MarkAsSnippet { .. }));
    let linker = CompilationError::CompilationFailed { exit_code: 1, message: "linker `cc` not found".to_string() };
    match manager.decide(&linker, "fn main() {}", &config, 0) {
        RecoveryAction::Fallback { target, disable_features } => {
            assert_eq!(target, "x86_64-unknown-linux-gnu");
            assert_eq!(disable_features, vec!["embedded".to_string()]);
        }
        other => panic!("unexpected {:?}", other),
    }
    match manager.decide(&linker, "fn main() {}", &config, 5) {
        RecoveryAction::Skip { reason } => assert_eq!(reason, "Compilation failed (exit code 1): linker `cc` not found"),
        other => panic!("unexpected {:?}", other),
    }
}

#[test]
fn io_errors_retry_with_default_configuration() {
    let manager = ErrorRecoveryManager::default();
    let error = CompilationError::IoError { message: "disk full".to_string() };
    match manager.decide(&error, "fn main() {}", &TestConfig::embedded(), 0) {
        RecoveryAction::Retry { config, reason } => {
            assert_eq!(config.targets, vec!["x86_64-unknown-linux-gnu".to_string()]);
            assert_eq!(reason, "Retrying after I/O error: disk full");
        }
        other => panic!("unexpected {:?}", other),
    }
    assert!(matches!(manager.decide(&error, "fn main() {}", &TestConfig::default(), 3), RecoveryAction::Skip { .. }));
}

#[test]
fn retries_stop_at_the_limit() {
    let manager = ErrorRecoveryManager::new(2, vec![], vec![]);
    let error = CompilationError::DependencyError { missing: vec!["aes".to_string()] };
    let retries = (0..6)
        .filter(|n| matches!(manager.decide(&error, "fn main() {}", &TestConfig::default(), *n), RecoveryAction::Retry { .. }))
        .count();
    assert_eq!(retries, 2);
}

#[test]
fn decisions_are_memoized_by_signature() {
    let mut manager = ErrorRecoveryManager::default();
    let a = example("a", "fn main() {}", ExampleContext::Std { features: vec![] });
    let error = CompilationError::IoError { message: "first".to_string() };
    let first = manager.determine_recovery_action(&error, &a, &TestConfig::default(), 0);
    assert!(matches!(first, RecoveryAction::Retry { .. }));
    let other = CompilationError::IoError { message: "second".to_string() };
    match manager.determine_recovery_action(&other, &a, &TestConfig::default(), 1) {
        RecoveryAction::Retry { reason, .. } => assert_eq!(reason, "Retrying after I/O error: first"),
        other => panic!("unexpected {:?}", other),
    }
    match manager.determine_recovery_action(&other, &a, &TestConfig::default(), 3) {
        RecoveryAction::Skip { reason } => assert_eq!(reason, "Persistent I/O error: second"),
        other => panic!("unexpected {:?}", other),
    }
}

#[test]
fn retries_per_signature_never_exceed_the_limit() {
    let mut manager = ErrorRecoveryManager::default();
    let a = example("a", "fn main() {}", ExampleContext::Std { features: vec![] });
    let error = CompilationError::IoError { message: "disk".to_string() };
    let mut retries = 0;
    for _ in 0..6 {
        if let RecoveryAction::Retry { .. } = manager.determine_recovery_action(&error, &a, &TestConfig::default(), retries) {
            retries += 1;
        }
    }
    assert_eq!(retries, 3);
}

#[test]
fn feature_errors_need_every_feature_optional() {
    let manager = ErrorRecoveryManager::default();
    let mut config = TestConfig::default();
    config.features = vec!["hardware".to_string(), "foo".to_string(), "std".to_string()];
    let error = CompilationError::FeatureError { unsupported: vec!["hardware".to_string(), "foo".to_string()] };
    match manager.decide(&error, "fn main() {}", &config, 0) {
        RecoveryAction::Skip { reason } => assert_eq!(reason, "Unsupported features required: hardware, foo"),
        other => panic!("unexpected {:?}", other),
    }
    let error = CompilationError::FeatureError { unsupported: vec![] };
    assert!(matches!(manager.decide(&error, "fn main() {}", &config, 0), RecoveryAction::Skip { .. }));
}

#[test]
fn timeout_retry_keeps_the_configuration() {
    let manager = ErrorRecoveryManager::default();
    let error = CompilationError::TimeoutError { duration: 30_000 };
    match manager.decide(&error, "fn main() {}", &TestConfig::embedded(), 0) {
        RecoveryAction::Retry { config, .. } => {
            assert_eq!(config.compilation_timeout, 60_000);
            assert_eq!(config.targets.len(), 2);
            assert_eq!(config.features, vec!["embedded".to_string()]);
        }
        other => panic!("unexpected {:?}", other),
    }
}

#[test]
fn attempts_follow_recovery_steps() {
    let mut manager = ErrorRecoveryManager::default();
    let e = example("a", "fn main() {}", ExampleContext::Std { features: vec![] });
    let mut config = TestConfig::default();
    config.work_dir = "/tmp/work".to_string();
    config.features = vec!["embedded".to_string(), "std".to_string()];
    let first = Attempt { number: 0, target: "thumbv7em-none-eabihf".to_string(), config };
    let linker = CompilationError::CompilationFailed { exit_code: 1, message: "linker failed".to_string() };
    let next = match manager.next_attempt(&first, &linker, &e).1 {
        AttemptStep::Again { attempt, recovery_type } => {
            assert_eq!(recovery_type, "fallback");
            assert_eq!(attempt.number, 1);
            assert_eq!(attempt.target, "x86_64-unknown-linux-gnu");
            assert_eq!(attempt.config.features, vec!["std".to_string()]);
            attempt
        }
        other => panic!("unexpected {:?}", other),
    };
    let timeout = CompilationError::TimeoutError { duration: 1000 };
    match manager.next_attempt(&next, &timeout, &e).1 {
        AttemptStep::Again { attempt, recovery_type } => {
            assert_eq!(recovery_type, "timeout_extend");
            assert_eq!(attempt.number, 2);
            assert_eq!(attempt.config.compilation_timeout, 2000);
            assert_eq!(attempt.config.work_dir, "/tmp/work");
        }
        other => panic!("unexpected {:?}", other),
    }
    let last = Attempt { number: 3, target: "x86_64-unknown-linux-gnu".to_string(), config: TestConfig::default() };
    assert!(matches!(manager.next_attempt(&last, &timeout, &e).1, AttemptStep::Skipped { .. }));
    let snippet = example("s", "let x = ", ExampleContext::Std { features: vec![] });
    let syntax = CompilationError::SyntaxError { message: "expected expression".to_string(), line: Some(1), column: None };
    assert!(matches!(manager.next_attempt(&first, &syntax, &snippet).1, AttemptStep::Snippet { .. }));
}

#[test]
fn degraded_mode_picks_first_applicable_strategy() {
    let mut manager = GracefulDegradationManager::default();
    let plain = example("p", "fn main() {}", ExampleContext::Std { features: vec![] });
    assert_eq!(manager.should_degrade_example(&plain), None);
    manager.update_failure_rate(0, 4);
    let hardware = example("h", "fn main() {}", ExampleContext::Hardware { platform: "STM32F4".to_string(), features: vec![] });
    let complex = example("c", "unsafe { a() }\nunsafe { b() }", ExampleContext::Std { features: vec![] });
    assert_eq!(manager.should_degrade_example(&complex), Some(DegradationStrategy::SkipComplexExamples));
    assert_eq!(manager.should_degrade_example(&hardware), Some(DegradationStrategy::DisableHardwareTesting));
    assert_eq!(manager.should_degrade_example(&plain), Some(DegradationStrategy::SyntaxOnlyValidation));
}
