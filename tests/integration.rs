use rust_examples::{CodeExtractor, DependencyResolver, ExampleContext, RustExampleTester, TestConfig};

#[test]
fn test_library_integration() {
    let config = TestConfig::default();
    let tester = RustExampleTester::new(config).expect("Failed to create tester");
    assert!(tester.is_ready());
}

#[test]
fn test_dependency_resolution_integration() {
    let extractor = CodeExtractor::new().expect("Failed to create extractor");
    let resolver = DependencyResolver::new();
    let content = r#"
# Test Document

## Standard Library Example
```rust
use std::collections::HashMap;

fn main() {
    let mut map = HashMap::new();
    map.insert("key", "value");
    println!("Hello, world!");
}
```

## No-std Example
```rust,no_std
#![no_std]
use heapless::Vec;
use cortex_m::interrupt;

#[entry]
fn main() -> ! {
    let mut data: Vec<u8, 32> = Vec::new();
    loop {}
}
```

## Crypto Example
```rust,crypto,algorithm=AES
use aes::Aes256;
use zeroize::Zeroize;

fn encrypt_data() {
    let cipher = Aes256::new(&key);
    let mut key = [0u8; 32];
    // ... encryption logic
    key.zeroize();
}
```

## Hardware Example
```rust,hardware=STM32F4
use stm32f4xx_hal::gpio::*;

fn setup_gpio() {
    // GPIO setup code
}
```

## Snippet (should be ignored)
```rust,snippet
let key = generate_key();
```
"#;
    let examples = extractor.extract_from_content(content, "test.md").expect("Failed to extract examples");
    assert_eq!(examples.len(), 5);
    for example in &examples {
        let deps = resolver.resolve_dependencies(example);
        match &example.context {
            ExampleContext::Std { .. } => {}
            ExampleContext::NoStd { .. } => {
                assert!(!deps.is_empty(), "NoStd example should have dependencies");
                assert!(deps.iter().any(|d| d.name == "heapless"), "Should have heapless dependency");
                assert!(deps.iter().any(|d| d.name == "cortex-m"), "Should have cortex-m dependency");
                assert!(deps.iter().any(|d| d.name == "cortex-m-rt"), "Should have cortex-m-rt dependency");
            }
            ExampleContext::Crypto { .. } => {
                assert!(!deps.is_empty(), "Crypto example should have dependencies");
                assert!(deps.iter().any(|d| d.name == "aes"), "Should have aes dependency");
                assert!(deps.iter().any(|d| d.name == "zeroize"), "Should have zeroize dependency");
            }
            ExampleContext::Hardware { .. } => {
                assert!(!deps.is_empty(), "Hardware example should have dependencies");
                assert!(deps.iter().any(|d| d.name == "stm32f4xx-hal"), "Should have stm32f4xx-hal dependency");
            }
            ExampleContext::Snippet { .. } => {
                assert!(deps.is_empty(), "Snippet should have no dependencies");
            }
        }
    }
    let cargo_toml = resolver.generate_cargo_toml(&examples, "integration_test");
    assert!(cargo_toml.contains("[package]"));
    assert!(cargo_toml.contains("name = \"integration_test\""));
    assert!(cargo_toml.contains("[dependencies]"));
    assert!(cargo_toml.contains("[profile.release]"));
    assert!(cargo_toml.contains("opt-level = \"s\""));
    assert!(cargo_toml.contains("[target.'cfg(target = \"thumbv7em-none-eabihf\")'.dependencies]"));
}

#[test]
fn test_single_example_cargo_toml_generation() {
    let extractor = CodeExtractor::new().expect("Failed to create extractor");
    let resolver = DependencyResolver::new();
    let content = r#"
```rust,crypto
use zeroize::Zeroize;
use aes::Aes256;

fn secure_function() {
    let mut key = [0u8; 32];
    // ... crypto operations
    key.zeroize();
}
```
"#;
    let examples = extractor.extract_from_content(content, "crypto_test.md").expect("Failed to extract examples");
    assert_eq!(examples.len(), 1);
    let example = &examples[0];
    let cargo_toml = resolver.generate_example_cargo_toml(example);
    assert!(cargo_toml.contains(&format!("name = \"example_{}\"", example.id)));
    assert!(cargo_toml.contains("aes = { version = \"0.8\", default-features = false, features = [\"crypto\"] }"));
    assert!(cargo_toml.contains("zeroize = { version = \"1.7\", features = [\"crypto\", \"derive\"] }"));
}
