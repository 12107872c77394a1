use rust_examples::{
    parse_annotations, CodeExample, CodeExtractor, DependencyResolver, ExampleContext, GracefulDegradationManager,
    RustExampleTester, TestConfig,
};

#[test]
fn plain_main_is_full_runtime_without_dependencies() {
    let extractor = CodeExtractor::new().unwrap();
    let context = extractor.infer_context(&parse_annotations(""), "fn main() { }");
    assert!(matches!(context, ExampleContext::Std { ref features } if features.is_empty()));
    let example = CodeExample::new("a_1".to_string(), "a.md".to_string(), 1, "fn main() { }".to_string(), context);
    let resolver = DependencyResolver::new();
    assert!(resolver.resolve_dependencies(&example).is_empty());
    let tester = RustExampleTester::new(TestConfig::default()).unwrap();
    assert_eq!(tester.plan(&example).unwrap(), vec!["x86_64-unknown-linux-gnu".to_string()]);
}

#[test]
fn no_std_heapless_is_restricted_with_target_bound_package() {
    let extractor = CodeExtractor::new().unwrap();
    let code = "#![no_std]\nuse heapless::Vec;";
    let context = extractor.infer_context(&parse_annotations(""), code);
    assert!(matches!(context, ExampleContext::NoStd { .. }));
    let example = CodeExample::new("a_1".to_string(), "a.md".to_string(), 1, code.to_string(), context);
    let deps = DependencyResolver::new().resolve_dependencies(&example);
    assert_eq!(deps.len(), 1);
    assert_eq!(deps[0].name, "heapless");
    assert_eq!(deps[0].target, Some("thumbv7em-none-eabihf".to_string()));
}

#[test]
fn snippet_annotation_always_wins() {
    let extractor = CodeExtractor::new().unwrap();
    for code in ["fn main() { }", "#![no_std]\nuse heapless::Vec;", "use aes::Aes256;", ""] {
        match extractor.infer_context(&parse_annotations("snippet=incomplete"), code) {
            ExampleContext::Snippet { reason } => assert_eq!(reason, "incomplete"),
            _ => panic!("expected an excerpt"),
        }
    }
    match extractor.infer_context(&parse_annotations("snippet"), "fn main() {}") {
        ExampleContext::Snippet { reason } => assert_eq!(reason, "incomplete code"),
        _ => panic!("expected an excerpt"),
    }
}

#[test]
fn excerpts_have_no_dependencies() {
    let example = CodeExample::new(
        "s".to_string(),
        "a.md".to_string(),
        1,
        "use heapless::Vec;\nuse unknown_crate::X;".to_string(),
        ExampleContext::Snippet { reason: "incomplete".to_string() },
    );
    assert!(DependencyResolver::new().resolve_dependencies(&example).is_empty());
}

#[test]
fn resolution_is_sorted_deduplicated_and_repeatable() {
    let resolver = DependencyResolver::new();
    let code = "use zeroize::Zeroize;\nuse aes::Aes256;\nuse zeroize::DefaultIsZeroes;\nuse my_crate::thing;";
    let example = CodeExample::new("x".to_string(), "a.md".to_string(), 1, code.to_string(), ExampleContext::Std { features: vec![] });
    let first = resolver.resolve_dependencies(&example);
    let second = resolver.resolve_dependencies(&example);
    let names: Vec<String> = first.iter().map(|d| d.name.clone()).collect();
    assert_eq!(names, vec!["aes".to_string(), "my-crate".to_string(), "zeroize".to_string()]);
    assert_eq!(format!("{:?}", first), format!("{:?}", second));
    assert_eq!(first[1].version, "*");
    assert!(first[1].default_features);
}

#[test]
fn degradation_enters_and_leaves_with_hysteresis() {
    let mut manager = GracefulDegradationManager::new();
    assert!(!manager.is_degraded());
    manager.update_failure_rate(2, 10);
    assert!(manager.is_degraded());
    assert_eq!(manager.failure_rate_basis_points(), 8000);
    manager.update_failure_rate(6, 10);
    assert!(manager.is_degraded());
    manager.update_failure_rate(8, 10);
    assert!(!manager.is_degraded());
    manager.update_failure_rate(0, 0);
    assert!(!manager.is_degraded());
}
