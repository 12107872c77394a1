use rust_examples::{cache_key_of, Annotations, CachedTestResult, CodeExample, CompilationError, ExampleContext, ResultCache, TestResult};

fn example(file: &str, id: &str) -> CodeExample {
    CodeExample {
        id: id.to_string(),
        source_file: file.to_string(),
        line_number: 3,
        code: "fn main() {}".to_string(),
        context: ExampleContext::Std { features: vec![] },
        annotations: Annotations::new(),
        dependencies: vec![],
    }
}

#[test]
fn cache_keys_join_document_and_fragment() {
    assert_eq!(cache_key_of(&example("docs/a.md", "a_1")), "docs/a.md:a_1");
}

#[test]
fn unchanged_fragments_are_hits() {
    let mut cache = ResultCache::new();
    let e = example("a.md", "a_1");
    assert!(cache.needs_testing(&e, "abc", 100));
    let result = TestResult::success("a_1".to_string(), "x86_64-unknown-linux-gnu".to_string(), 12);
    cache.update(&e, &result, "abc", 100);
    assert!(!cache.needs_testing(&e, "abc", 100));
    assert!(cache.needs_testing(&e, "abc", 99));
    assert!(cache.needs_testing(&e, "abd", 100));
    assert!(cache.needs_testing(&e, "abc", 101));
    assert!(cache.needs_testing(&example("a.md", "a_2"), "abc", 100));
    cache.update(&e, &result, "new", 200);
    assert!(!cache.needs_testing(&e, "new", 200));
    assert_eq!(cache.get("a.md:a_1").unwrap().modified_time, 200);
}

#[test]
fn cached_results_round_trip() {
    let failed = TestResult::failure(
        "a_1".to_string(),
        "thumbv6m-none-eabi".to_string(),
        40,
        CompilationError::IoError { message: "disk".to_string() },
        "stderr".to_string(),
    );
    let cached = CachedTestResult::from_result(&failed);
    assert_eq!(cached.error, Some("IO error: disk".to_string()));
    assert_eq!(cached.compilation_time_ms, 40);
    let back = cached.to_test_result();
    assert!(!back.success);
    assert_eq!(back.stderr, "IO error: disk");
    match back.error {
        Some(CompilationError::CompilationFailed { exit_code, message }) => {
            assert_eq!(exit_code, -1);
            assert_eq!(message, "IO error: disk");
        }
        _ => panic!("expected a failure"),
    }
    let ok = CachedTestResult::from_result(&TestResult::success("b".to_string(), "t".to_string(), 5)).to_test_result();
    assert!(ok.success);
    assert!(ok.error.is_none());
}

#[test]
fn stored_record_and_changed_list() {
    let mut cache = ResultCache::new();
    let a = example("a.md", "a_1");
    let b = example("a.md", "a_2");
    let result = TestResult::success("a_1".to_string(), "host".to_string(), 12);
    cache.update(&a, &result, "h1", 10);
    let entry = cache.get("a.md:a_1").unwrap();
    assert_eq!(entry.result.example_id, "a_1");
    assert_eq!(entry.result.target, "host");
    assert_eq!(entry.result.compilation_time_ms, 12);
    assert!(entry.result.success);
    let examples = vec![a.clone(), b.clone()];
    let current = vec![("h1".to_string(), 10), ("h2".to_string(), 10)];
    assert_eq!(cache.filter_changed_examples(&examples, &current), vec![1]);
    cache.update(&b, &result, "h2", 10);
    assert!(cache.filter_changed_examples(&examples, &current).is_empty());
    let touched = vec![("h1".to_string(), 11), ("h2".to_string(), 10)];
    assert_eq!(cache.filter_changed_examples(&examples, &touched), vec![0]);
}
