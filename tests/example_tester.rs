use rust_examples::example_tester::FragmentStep;
use rust_examples::{
    encode_text, simple_hash, Annotations, CodeExample, CompilationError, DependencyResolver, ExampleContext,
    GracefulDegradationManager, ResultCache, RustExampleTester, TestConfig, TestResult, ToolchainManager,
};

fn example(code: &str, context: ExampleContext) -> CodeExample {
    CodeExample {
        id: "e_1".to_string(),
        source_file: "e.md".to_string(),
        line_number: 1,
        code: code.to_string(),
        context,
        annotations: Annotations::new(),
        dependencies: vec![],
    }
}

#[test]
fn test_tester_creation() {
    let tester = RustExampleTester::new(TestConfig::default());
    assert!(tester.is_ok());
    assert!(tester.unwrap().is_ready());
}

#[test]
fn test_snippet_skipping() {
    let tester = RustExampleTester::new(TestConfig::default()).unwrap();
    let snippet = example("let x = ", ExampleContext::Snippet { reason: "incomplete".to_string() });
    match tester.plan(&snippet) {
        Err(result) => {
            assert!(result.success);
            assert_eq!(result.target, "skipped");
        }
        Ok(_) => panic!("an excerpt is never compiled"),
    }
}

#[test]
fn plans_use_available_targets() {
    let tester = RustExampleTester::new(TestConfig::default()).unwrap();
    let e = example("fn main() { }", ExampleContext::Std { features: vec![] });
    assert_eq!(tester.plan(&e).unwrap(), vec!["x86_64-unknown-linux-gnu".to_string()]);
    let tester = RustExampleTester::with_toolchain_manager(TestConfig::embedded(), ToolchainManager::new().unwrap());
    match tester.plan(&e) {
        Err(result) => {
            assert!(!result.success);
            assert_eq!(result.target, "none");
            assert!(matches!(result.error, Some(CompilationError::TargetError { .. })));
        }
        Ok(_) => panic!("no embedded target is installed"),
    }
}

#[test]
fn test_code_preparation() {
    let tester = RustExampleTester::new(TestConfig::default()).unwrap();
    let e = example("let x = 1;", ExampleContext::Std { features: vec![] });
    assert_eq!(tester.prepare_code_for_compilation(&e), "fn example_code() {\nlet x = 1;\n}");
    let e = example("fn main() {}", ExampleContext::NoStd { target: "thumbv6m-none-eabi".to_string(), features: vec![] });
    let prepared = tester.prepare_code_for_compilation(&e);
    assert!(prepared.starts_with("#![no_std]\nfn main() {}"));
    assert!(prepared.contains("#[panic_handler]"));
    assert_eq!(tester.source_file_name(&e), "main.rs");
    let lib = example("pub fn f() {}", ExampleContext::Std { features: vec![] });
    assert_eq!(tester.source_file_name(&lib), "lib.rs");
    assert_eq!(tester.prepare_code_for_compilation(&lib), "pub fn f() {}");
}

#[test]
fn compiler_output_is_classified() {
    let tester = RustExampleTester::new(TestConfig::default()).unwrap();
    let stderr = "error[E0308]: mismatched types\n --> src/main.rs:5:10\n";
    match tester.parse_compilation_error(stderr, Some(101)) {
        CompilationError::SyntaxError { message, line, column } => {
            assert_eq!(message, "error[E0308]: mismatched types");
            assert_eq!(line, Some(5));
            assert_eq!(column, None);
        }
        other => panic!("unexpected {:?}", other),
    }
    match tester.parse_compilation_error("error: could not find `Cargo.toml`", Some(101)) {
        CompilationError::DependencyError { missing } => assert_eq!(missing, vec!["Unknown dependency".to_string()]),
        other => panic!("unexpected {:?}", other),
    }
    match tester.parse_compilation_error("boom", None) {
        CompilationError::CompilationFailed { exit_code, message } => {
            assert_eq!(exit_code, -1);
            assert_eq!(message, "boom");
        }
        other => panic!("unexpected {:?}", other),
    }
}

#[test]
fn line_numbers_and_warnings() {
    let tester = RustExampleTester::new(TestConfig::default()).unwrap();
    assert_eq!(tester.extract_line_number("no colon here\nsrc/lib.rs:x:1\nsrc/lib.rs:+12:3"), Some(12));
    assert_eq!(tester.extract_line_number("a:99999999999999999999999:1"), None);
    assert_eq!(tester.extract_line_number(""), None);
    let warnings = tester.extract_warnings("warning: unused\nerror: x\n  warning: dead code");
    assert_eq!(warnings, vec!["warning: unused".to_string(), "  warning: dead code".to_string()]);
    let e = example("fn main() {}", ExampleContext::Std { features: vec![] });
    let ok = tester.result_for(&e, "host", Ok(("out".to_string(), "warning: a\n".to_string())), 7);
    assert!(ok.success);
    assert_eq!(ok.warnings.len(), 1);
    assert_eq!(ok.compilation_time, 7);
    let bad = tester.result_for(&e, "host", Err(CompilationError::IoError { message: "m".to_string() }), 3);
    assert!(!bad.success);
}

#[test]
fn test_html_escape() {
    let input = r#"<script>alert("xss")</script> & "quotes" & 'apostrophes'"#;
    let escaped = encode_text(input);
    assert!(escaped.contains("&lt;script&gt;"));
    assert!(escaped.contains("&amp;"));
    assert!(escaped.contains("&quot;"));
    assert!(escaped.contains("&#x27;"));
    assert!(!escaped.contains("<script>"));
    assert!(!escaped.contains("alert(\"xss\")"));
    assert_eq!(encode_text("a<b"), "a&lt;b");
}

#[test]
fn test_simple_hash() {
    let hash1 = simple_hash("test content");
    let hash2 = simple_hash("test content");
    let hash3 = simple_hash("different content");
    assert_eq!(hash1, hash2);
    assert_ne!(hash1, hash3);
    assert_eq!(simple_hash("a"), format!("{:x}", 31 + 97));
    assert_eq!(simple_hash(""), "0");
}

#[test]
fn dependency_resolver_test_cargo_toml_generation() {
    let resolver = DependencyResolver::new();
    let examples = vec![
        CodeExample::new("std_example".to_string(), "test.md".to_string(), 1, "use zeroize::Zeroize;".to_string(), ExampleContext::Std { features: vec![] }),
        CodeExample::new(
            "no_std_example".to_string(),
            "test.md".to_string(),
            10,
            "use heapless::Vec;\nuse cortex_m::interrupt;".to_string(),
            ExampleContext::NoStd { target: "thumbv7em-none-eabihf".to_string(), features: vec![] },
        ),
    ];
    let cargo_toml = resolver.generate_cargo_toml(&examples, "test_project");
    assert!(cargo_toml.contains("[package]"));
    assert!(cargo_toml.contains("name = \"test_project\""));
    assert!(cargo_toml.contains("[dependencies]"));
    assert!(cargo_toml.contains("zeroize = { version = \"1.7\", features = [\"derive\"] }"));
    assert!(cargo_toml.contains("[target.'cfg(target = \"thumbv7em-none-eabihf\")'.dependencies]"));
    assert!(cargo_toml.contains("heapless = { version = \"0.8\" }"));
    assert!(cargo_toml.contains("cortex-m = { version = \"0.7\" }"));
    assert!(cargo_toml.contains("[profile.release]"));
    assert!(cargo_toml.contains("opt-level = \"s\""));
    let cortex = cargo_toml.find("cortex-m = ").unwrap();
    let heapless = cargo_toml.find("heapless = ").unwrap();
    assert!(cortex < heapless);
    assert_eq!(cargo_toml, resolver.generate_cargo_toml(&examples, "test_project"));
}

#[test]
fn manifest_for_full_runtime_only() {
    let resolver = DependencyResolver::new();
    let examples = vec![CodeExample::new("a".to_string(), "t.md".to_string(), 1, "fn main() { }".to_string(), ExampleContext::Std { features: vec![] })];
    assert_eq!(
        resolver.generate_cargo_toml(&examples, "p"),
        "[package]\nname = \"p\"\nversion = \"0.1.0\"\nedition = \"2021\"\n\n"
    );
}

#[test]
fn uncoded_parse_errors_are_syntax_errors() {
    let tester = RustExampleTester::new(TestConfig::default()).unwrap();
    let stderr = "error: expected expression, found `<eof>`\n --> src/lib.rs:1:9\n";
    match tester.parse_compilation_error(stderr, Some(101)) {
        CompilationError::SyntaxError { line, .. } => assert_eq!(line, Some(1)),
        other => panic!("unexpected {:?}", other),
    }
}

#[test]
fn fragment_steps() {
    let tester = RustExampleTester::new(TestConfig::default()).unwrap();
    let mut cache = ResultCache::new();
    let mut deg = GracefulDegradationManager::default();
    let e = example("fn main() { }", ExampleContext::Std { features: vec![] });
    assert!(matches!(tester.fragment_step(&cache, &deg, &e, "h", 1, true, true, true), FragmentStep::Stop));
    match tester.fragment_step(&cache, &deg, &e, "h", 1, true, true, false) {
        FragmentStep::Compile { targets } => assert_eq!(targets, vec!["x86_64-unknown-linux-gnu".to_string()]),
        other => panic!("unexpected {:?}", other),
    }
    cache.update(&e, &TestResult::success("e_1".to_string(), "host".to_string(), 1), "h", 1);
    assert!(matches!(tester.fragment_step(&cache, &deg, &e, "h", 1, true, false, false), FragmentStep::Reuse));
    assert!(matches!(tester.fragment_step(&cache, &deg, &e, "h", 1, false, false, false), FragmentStep::Compile { .. }));
    let snippet = example("let x", ExampleContext::Snippet { reason: "r".to_string() });
    assert!(matches!(tester.fragment_step(&cache, &deg, &snippet, "x", 1, true, false, false), FragmentStep::Record { .. }));
    deg.update_failure_rate(0, 10);
    let hw = example("fn main() { }", ExampleContext::Hardware { platform: "STM32F4".to_string(), features: vec![] });
    assert!(matches!(tester.fragment_step(&cache, &deg, &hw, "x", 1, true, false, false), FragmentStep::Skip { .. }));
    assert!(matches!(tester.fragment_step(&cache, &deg, &e, "other", 1, true, false, false), FragmentStep::Compile { .. }));
}

#[test]
fn manifest_ignores_excerpts() {
    let resolver = DependencyResolver::new();
    let real = CodeExample::new("a".to_string(), "t.md".to_string(), 1, "use zeroize::Zeroize;".to_string(), ExampleContext::Std { features: vec![] });
    let excerpt = CodeExample::new(
        "b".to_string(),
        "t.md".to_string(),
        5,
        "use heapless::Vec;".to_string(),
        ExampleContext::Snippet { reason: "r".to_string() },
    );
    let with = resolver.generate_cargo_toml(&vec![real.clone(), excerpt], "p");
    let without = resolver.generate_cargo_toml(&vec![real], "p");
    assert_eq!(with, without);
}
