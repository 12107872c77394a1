use rust_examples::{CodeExample, Dependency, DependencyResolver, ExampleContext};

#[test]
fn test_dependency_creation() {
    let dep = Dependency::new("heapless", "0.8").with_features(vec!["serde".to_string()]).optional().no_default_features();
    assert_eq!(dep.name, "heapless");
    assert_eq!(dep.version, "0.8");
    assert_eq!(dep.features, vec!["serde"]);
    assert!(dep.optional);
    assert!(!dep.default_features);
}

#[test]
fn test_dependency_toml_generation() {
    let simple_dep = Dependency::new("heapless", "0.8");
    assert_eq!(simple_dep.to_toml_value(), "\"0.8\"");
    let complex_dep = Dependency::new("aes", "0.8").with_features(vec!["std".to_string()]).no_default_features();
    assert_eq!(complex_dep.to_toml_value(), "{ version = \"0.8\", default-features = false, features = [\"std\"] }");
}

#[test]
fn toml_value_of_target_bound_and_optional_dependencies() {
    let dep = Dependency::new("heapless", "0.8").for_target("thumbv7em-none-eabihf");
    assert_eq!(dep.to_toml_value(), "{ version = \"0.8\" }");
    let dep = Dependency::new("rand", "0.8").with_features(vec!["a".to_string(), "b".to_string()]).optional();
    assert_eq!(dep.to_toml_value(), "{ version = \"0.8\", features = [\"a\", \"b\"], optional = true }");
}

#[test]
fn test_dependency_resolver_creation() {
    let resolver = DependencyResolver::new();
    let known_deps = resolver.known_dependencies();
    assert!(known_deps.contains(&"heapless".to_string()));
    assert!(known_deps.contains(&"zeroize".to_string()));
    assert!(known_deps.contains(&"aes".to_string()));
    assert!(known_deps.contains(&"cortex-m".to_string()));
}

#[test]
fn test_crate_name_extraction() {
    let resolver = DependencyResolver::new();
    assert_eq!(resolver.extract_crate_name_from_use("use heapless::Vec;"), Some("heapless".to_string()));
    assert_eq!(resolver.extract_crate_name_from_use("use cortex_m::interrupt;"), Some("cortex-m".to_string()));
    assert_eq!(resolver.extract_crate_name_from_use("use std::collections::HashMap;"), None);
    assert_eq!(resolver.extract_crate_name_from_use("use self::module;"), None);
}

#[test]
fn crate_name_forms() {
    let resolver = DependencyResolver::new();
    assert_eq!(resolver.extract_crate_name_from_use("use serde_json;"), Some("serde-json".to_string()));
    assert_eq!(resolver.extract_crate_name_from_use("use rand as r;"), Some("rand".to_string()));
    assert_eq!(resolver.extract_crate_name_from_use("use crate::x;"), None);
    assert_eq!(resolver.extract_crate_name_from_use("fn use_it() {}"), None);
    assert_eq!(resolver.extract_crate_name_from_use("use ::x"), None);
}

#[test]
fn test_dependency_detection_from_code() {
    let resolver = DependencyResolver::new();
    let code = r#"
use heapless::Vec;
use cortex_m::interrupt;
use zeroize::Zeroize;
use aes::Aes256;
"#;
    let deps = resolver.detect_dependencies_from_code(code);
    assert!(deps.contains(&"heapless".to_string()));
    assert!(deps.contains(&"cortex-m".to_string()));
    assert!(deps.contains(&"zeroize".to_string()));
    assert!(deps.contains(&"aes".to_string()));
}

#[test]
fn detection_reads_extern_crate_and_sorts() {
    let resolver = DependencyResolver::new();
    let deps = resolver.detect_dependencies_from_code("extern crate libm;\n  use core::fmt;\nuse rand::Rng;\n");
    assert_eq!(deps, vec!["libm".to_string(), "rand".to_string()]);
}

#[test]
fn test_implicit_dependency_detection() {
    let resolver = DependencyResolver::new();
    let code_with_panic = r#"
#[panic_handler]
fn panic(_info: &PanicInfo) -> ! {
    loop {}
}
"#;
    let mut deps = Vec::new();
    resolver.detect_implicit_dependencies(code_with_panic, &mut deps);
    assert!(deps.contains(&"panic-halt".to_string()));
    let code_with_entry = r#"
#[entry]
fn main() -> ! {
    loop {}
}
"#;
    let mut deps = Vec::new();
    resolver.detect_implicit_dependencies(code_with_entry, &mut deps);
    assert!(deps.contains(&"cortex-m-rt".to_string()));
}

#[test]
fn test_resolve_dependencies_for_std_example() {
    let resolver = DependencyResolver::new();
    let example = CodeExample::new(
        "test_std".to_string(),
        "test.md".to_string(),
        1,
        "use zeroize::Zeroize;\nlet mut key = [0u8; 32];".to_string(),
        ExampleContext::Std { features: vec!["crypto".to_string()] },
    );
    let deps = resolver.resolve_dependencies(&example);
    assert_eq!(deps.len(), 1);
    assert_eq!(deps[0].name, "zeroize");
    assert_eq!(deps[0].version, "1.7");
    assert!(deps[0].features.contains(&"derive".to_string()));
    assert!(deps[0].features.contains(&"crypto".to_string()));
}

#[test]
fn test_resolve_dependencies_for_no_std_example() {
    let resolver = DependencyResolver::new();
    let example = CodeExample::new(
        "test_no_std".to_string(),
        "test.md".to_string(),
        1,
        "use heapless::Vec;\nuse cortex_m::interrupt;".to_string(),
        ExampleContext::NoStd { target: "thumbv7em-none-eabihf".to_string(), features: vec![] },
    );
    let deps = resolver.resolve_dependencies(&example);
    assert_eq!(deps.len(), 2);
    let heapless_dep = deps.iter().find(|d| d.name == "heapless").unwrap();
    assert_eq!(heapless_dep.version, "0.8");
    assert_eq!(heapless_dep.target, Some("thumbv7em-none-eabihf".to_string()));
    let cortex_m_dep = deps.iter().find(|d| d.name == "cortex-m").unwrap();
    assert_eq!(cortex_m_dep.version, "0.7");
}

#[test]
fn test_resolve_dependencies_for_crypto_example() {
    let resolver = DependencyResolver::new();
    let example = CodeExample::new(
        "test_crypto".to_string(),
        "test.md".to_string(),
        1,
        "use aes::Aes256;\nuse zeroize::Zeroize;".to_string(),
        ExampleContext::Crypto { algorithm: Some("AES".to_string()), features: vec!["hardware".to_string()] },
    );
    let deps = resolver.resolve_dependencies(&example);
    assert_eq!(deps.len(), 2);
    let aes_dep = deps.iter().find(|d| d.name == "aes").unwrap();
    assert_eq!(aes_dep.version, "0.8");
    assert!(!aes_dep.default_features);
    assert!(aes_dep.features.contains(&"hardware".to_string()));
    let zeroize_dep = deps.iter().find(|d| d.name == "zeroize").unwrap();
    assert_eq!(zeroize_dep.version, "1.7");
    assert!(zeroize_dep.features.contains(&"derive".to_string()));
    assert!(zeroize_dep.features.contains(&"hardware".to_string()));
}

#[test]
fn test_snippet_dependencies_ignored() {
    let resolver = DependencyResolver::new();
    let example = CodeExample::new(
        "snippet_example".to_string(),
        "test.md".to_string(),
        1,
        "let key = generate_key();".to_string(),
        ExampleContext::Snippet { reason: "incomplete".to_string() },
    );
    let deps = resolver.resolve_dependencies(&example);
    assert_eq!(deps.len(), 0);
}

#[test]
fn test_hardware_specific_dependencies() {
    let resolver = DependencyResolver::new();
    let example = CodeExample::new(
        "hardware_example".to_string(),
        "test.md".to_string(),
        1,
        "use stm32f4xx_hal::gpio::*;".to_string(),
        ExampleContext::Hardware { platform: "STM32F4".to_string(), features: vec!["gpio".to_string()] },
    );
    let deps = resolver.resolve_dependencies(&example);
    assert_eq!(deps.len(), 1);
    let stm32_dep = &deps[0];
    assert_eq!(stm32_dep.name, "stm32f4xx-hal");
    assert_eq!(stm32_dep.version, "0.19");
    assert!(stm32_dep.features.contains(&"stm32f407".to_string()));
    assert!(stm32_dep.features.contains(&"gpio".to_string()));
}

#[test]
fn unknown_packages_in_restricted_profiles_drop_default_features() {
    let resolver = DependencyResolver::new();
    let example = CodeExample::new(
        "x".to_string(),
        "test.md".to_string(),
        1,
        "use my_driver::Thing;".to_string(),
        ExampleContext::NoStd { target: "thumbv6m-none-eabi".to_string(), features: vec![] },
    );
    let deps = resolver.resolve_dependencies(&example);
    assert_eq!(deps.len(), 1);
    assert_eq!(deps[0].name, "my-driver");
    assert_eq!(deps[0].version, "*");
    assert!(!deps[0].default_features);
    assert_eq!(deps[0].target, None);
}

#[test]
fn test_dependency_catalog_extensibility() {
    let resolver = DependencyResolver::new();
    let known_deps_before = resolver.known_dependencies();
    let initial_count = known_deps_before.len();
    assert!(known_deps_before.contains(&"heapless".to_string()));
    assert!(known_deps_before.contains(&"zeroize".to_string()));
    assert!(known_deps_before.contains(&"aes".to_string()));
    assert!(known_deps_before.contains(&"cortex-m".to_string()));
    assert!(initial_count > 10, "Should have a reasonable number of known dependencies");
}

#[test]
fn added_catalog_entries_are_used() {
    let mut resolver = DependencyResolver::new();
    let before = resolver.known_dependencies().len();
    resolver.add_dependency_info(
        "my-driver".to_string(),
        rust_examples::DependencyInfo { version: "2.1".to_string(), default_features: vec![], no_default_features: true, targets: vec![] },
    );
    assert_eq!(resolver.known_dependencies().len(), before + 1);
    let example = CodeExample::new(
        "x".to_string(),
        "test.md".to_string(),
        1,
        "use my_driver::Thing;".to_string(),
        ExampleContext::Crypto { algorithm: None, features: vec![] },
    );
    let deps = resolver.resolve_dependencies(&example);
    assert_eq!(deps[0].version, "2.1");
    assert!(!deps[0].default_features);
    resolver.add_dependency_info(
        "aes".to_string(),
        rust_examples::DependencyInfo { version: "0.9".to_string(), default_features: vec![], no_default_features: false, targets: vec![] },
    );
    assert_eq!(resolver.known_dependencies().len(), before + 1);
}
