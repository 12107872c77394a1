use rust_examples::{parse_annotations, CodeExample, CodeExtractor, ExampleContext};

#[test]
fn test_code_extractor_creation() {
    let extractor = CodeExtractor::new();
    assert!(extractor.is_ok());
}

#[test]
fn test_basic_code_extraction() {
    let extractor = CodeExtractor::new().unwrap();
    let content = r#"
# Test Document

Here's a simple example:

```rust
fn main() {
    println!("Hello, world!");
}
```

And another:

```rust,no_std
#![no_std]
use heapless::Vec;
```
"#;
    let examples = extractor.extract_from_content(content, "test.md").unwrap();
    assert_eq!(examples.len(), 2);
    assert!(matches!(examples[0].context, ExampleContext::Std { .. }));
    assert!(examples[0].code.contains("println!"));
    assert!(matches!(examples[1].context, ExampleContext::NoStd { .. }));
    assert!(examples[1].code.contains("#![no_std]"));
}

#[test]
fn test_annotation_parsing() {
    let extractor = CodeExtractor::new().unwrap();
    let annotations = extractor.parse_annotations("no_std,target=thumbv6m-none-eabi,features=crypto");
    assert!(annotations.contains_key("no_std"));
    assert_eq!(annotations.get("target"), Some(&Some("thumbv6m-none-eabi".to_string())));
    assert_eq!(annotations.get("features"), Some(&Some("crypto".to_string())));
}

#[test]
fn test_crypto_detection() {
    let extractor = CodeExtractor::new().unwrap();
    let crypto_code = r#"
use zeroize::Zeroize;
let mut key = [0u8; 32];
key.zeroize();
"#;
    assert!(extractor.is_crypto_code(crypto_code));
    let normal_code = "fn main() { println!('hello'); }";
    assert!(!extractor.is_crypto_code(normal_code));
}

#[test]
fn test_dependency_inference() {
    let code_with_deps = r#"
use heapless::Vec;
use cortex_m_rt::entry;
use zeroize::Zeroize;
"#;
    let deps = CodeExample::infer_dependencies(code_with_deps);
    assert!(deps.contains(&"heapless".to_string()));
    assert!(deps.contains(&"cortex-m-rt".to_string()));
    assert!(deps.contains(&"zeroize".to_string()));
}

#[test]
fn test_snippet_context() {
    let extractor = CodeExtractor::new().unwrap();
    let content = r#"
```rust,snippet
let key = generate_key();
```
"#;
    let examples = extractor.extract_from_content(content, "test.md").unwrap();
    assert_eq!(examples.len(), 1);
    assert!(matches!(examples[0].context, ExampleContext::Snippet { .. }));
    assert!(!examples[0].should_compile());
}

#[test]
fn test_enhanced_annotation_parsing() {
    let extractor = CodeExtractor::new().unwrap();
    let annotations = extractor.parse_annotations("hardware=STM32F4,features=\"crypto,hardware\",target=thumbv7em-none-eabihf");
    assert_eq!(annotations.get("hardware"), Some(&Some("STM32F4".to_string())));
    assert_eq!(annotations.get("features"), Some(&Some("crypto,hardware".to_string())));
    assert_eq!(annotations.get("target"), Some(&Some("thumbv7em-none-eabihf".to_string())));
    let annotations = extractor.parse_annotations("no_std,snippet");
    assert!(annotations.contains_key("no_std"));
    assert!(annotations.contains_key("snippet"));
    assert_eq!(annotations.get("no_std"), Some(&None));
    assert_eq!(annotations.get("snippet"), Some(&None));
}

#[test]
fn test_hardware_context_detection() {
    let extractor = CodeExtractor::new().unwrap();
    let content = r#"
```rust,hardware=STM32F4
use stm32f4xx_hal::gpio::*;
let pins = gpioa.split();
```
"#;
    let examples = extractor.extract_from_content(content, "test.md").unwrap();
    assert_eq!(examples.len(), 1);
    assert!(matches!(examples[0].context, ExampleContext::Hardware { .. }));
    if let ExampleContext::Hardware { platform, .. } = &examples[0].context {
        assert_eq!(platform, "STM32F4");
    }
    let content = r#"
```rust
use cortex_m::interrupt;
use stm32f4xx_hal::gpio::*;
```
"#;
    let examples = extractor.extract_from_content(content, "test.md").unwrap();
    assert_eq!(examples.len(), 1);
    assert!(matches!(examples[0].context, ExampleContext::NoStd { .. }));
}

#[test]
fn test_crypto_context_detection() {
    let extractor = CodeExtractor::new().unwrap();
    let content = r#"
```rust,crypto,algorithm=AES
use aes::Aes256;
use zeroize::Zeroize;
```
"#;
    let examples = extractor.extract_from_content(content, "test.md").unwrap();
    assert_eq!(examples.len(), 1);
    assert!(matches!(examples[0].context, ExampleContext::Crypto { .. }));
    if let ExampleContext::Crypto { algorithm, .. } = &examples[0].context {
        assert_eq!(algorithm, &Some("AES".to_string()));
    }
    let content = r#"
```rust
use zeroize::Zeroize;
let mut key = [0u8; 32];
key.zeroize();
```
"#;
    let examples = extractor.extract_from_content(content, "test.md").unwrap();
    assert_eq!(examples.len(), 1);
    assert!(matches!(examples[0].context, ExampleContext::Crypto { .. }));
}

#[test]
fn test_no_std_context_detection() {
    let extractor = CodeExtractor::new().unwrap();
    let content = r#"
```rust,no_std,target=thumbv6m-none-eabi
#![no_std]
use heapless::Vec;
```
"#;
    let examples = extractor.extract_from_content(content, "test.md").unwrap();
    assert_eq!(examples.len(), 1);
    assert!(matches!(examples[0].context, ExampleContext::NoStd { .. }));
    if let ExampleContext::NoStd { target, .. } = &examples[0].context {
        assert_eq!(target, "thumbv6m-none-eabi");
    }
    let content = r#"
```rust
#![no_std]
#![no_main]
use cortex_m_rt::entry;
```
"#;
    let examples = extractor.extract_from_content(content, "test.md").unwrap();
    assert_eq!(examples.len(), 1);
    assert!(matches!(examples[0].context, ExampleContext::NoStd { .. }));
}

#[test]
fn test_snippet_detection() {
    let extractor = CodeExtractor::new().unwrap();
    let content = r#"
```rust,snippet=incomplete example
let key = generate_key();
```
"#;
    let examples = extractor.extract_from_content(content, "test.md").unwrap();
    assert_eq!(examples.len(), 1);
    assert!(matches!(examples[0].context, ExampleContext::Snippet { .. }));
    if let ExampleContext::Snippet { reason } = &examples[0].context {
        assert_eq!(reason, "incomplete example");
    }
    let content = r#"
```rust
let x = 42;
```
"#;
    let examples = extractor.extract_from_content(content, "test.md").unwrap();
    assert_eq!(examples.len(), 1);
    assert!(matches!(examples[0].context, ExampleContext::Snippet { .. }));
}

#[test]
fn code_extractor_test_feature_extraction() {
    let extractor = CodeExtractor::new().unwrap();
    let content = r#"
```rust,features=crypto,hardware,no_std
use zeroize::Zeroize;
```
"#;
    let examples = extractor.extract_from_content(content, "test.md").unwrap();
    assert_eq!(examples.len(), 1);
    let features = examples[0].context.features();
    assert!(features.contains(&"crypto".to_string()));
    assert!(features.contains(&"hardware".to_string()));
}

#[test]
fn test_hardware_platform_detection() {
    let extractor = CodeExtractor::new().unwrap();
    assert_eq!(extractor.detect_hardware_platform("use stm32f4xx_hal::gpio::*;"), Some("STM32F4".to_string()));
    assert_eq!(extractor.detect_hardware_platform("use nrf52840_hal::gpio::*;"), Some("nRF52".to_string()));
    assert_eq!(extractor.detect_hardware_platform("use cortex_m::interrupt;"), Some("Cortex-M".to_string()));
    assert_eq!(extractor.detect_hardware_platform("fn main() { println!(\"hello\"); }"), None);
}

#[test]
fn test_crypto_algorithm_detection() {
    let extractor = CodeExtractor::new().unwrap();
    assert_eq!(extractor.detect_crypto_algorithm("use aes::Aes256;"), Some("AES".to_string()));
    assert_eq!(extractor.detect_crypto_algorithm("use sha2::Sha256;"), Some("SHA".to_string()));
    assert_eq!(extractor.detect_crypto_algorithm("use chacha20::ChaCha20;"), Some("ChaCha20".to_string()));
    assert_eq!(extractor.detect_crypto_algorithm("fn normal_function() {}"), None);
}

#[test]
fn test_context_should_compile() {
    let std_context = ExampleContext::Std { features: vec![] };
    assert!(std_context.should_compile());
    let no_std_context = ExampleContext::NoStd { target: "thumbv7em-none-eabihf".to_string(), features: vec![] };
    assert!(no_std_context.should_compile());
    let hardware_context = ExampleContext::Hardware { platform: "STM32F4".to_string(), features: vec![] };
    assert!(hardware_context.should_compile());
    let crypto_context = ExampleContext::Crypto { algorithm: Some("AES".to_string()), features: vec![] };
    assert!(crypto_context.should_compile());
    let snippet_context = ExampleContext::Snippet { reason: "incomplete".to_string() };
    assert!(!snippet_context.should_compile());
}

#[test]
fn test_context_is_no_std() {
    let std_context = ExampleContext::Std { features: vec![] };
    assert!(!std_context.is_no_std());
    let no_std_context = ExampleContext::NoStd { target: "thumbv7em-none-eabihf".to_string(), features: vec![] };
    assert!(no_std_context.is_no_std());
    let hardware_context = ExampleContext::Hardware { platform: "STM32F4".to_string(), features: vec![] };
    assert!(hardware_context.is_no_std());
    let crypto_context = ExampleContext::Crypto { algorithm: Some("AES".to_string()), features: vec![] };
    assert!(crypto_context.is_no_std());
    let snippet_context = ExampleContext::Snippet { reason: "incomplete".to_string() };
    assert!(!snippet_context.is_no_std());
}

#[test]
fn test_complex_code_examples() {
    let extractor = CodeExtractor::new().unwrap();
    let content = r#"
# Complex Examples

## Standard Library Example
```rust
use std::collections::HashMap;
fn main() {
    let mut map = HashMap::new();
    map.insert("key", "value");
    println!("{:?}", map);
}
```

## Embedded Crypto Example
```rust,no_std,features=crypto
#![no_std]
#![no_main]

use cortex_m_rt::entry;
use zeroize::Zeroize;
use aes::Aes256;

#[entry]
fn main() -> ! {
    let mut key = [0u8; 32];
    // ... crypto operations
    key.zeroize();
    loop {}
}
```

## Hardware Example
```rust,hardware=STM32F4,features=gpio
use stm32f4xx_hal::{gpio::*, pac};

fn setup_gpio() {
    let dp = pac::Peripherals::take().unwrap();
    let gpioa = dp.GPIOA.split();
    let led = gpioa.pa5.into_push_pull_output();
}
```

## Code Snippet
```rust,snippet=partial implementation
// This is just a fragment showing key generation
let key = generate_secure_key();
process_with_key(&key);
```
"#;
    let examples = extractor.extract_from_content(content, "complex.md").unwrap();
    assert_eq!(examples.len(), 4);
    assert!(matches!(examples[0].context, ExampleContext::Std { .. }));
    assert!(matches!(examples[1].context, ExampleContext::NoStd { .. }));
    assert!(matches!(examples[2].context, ExampleContext::Hardware { .. }));
    assert!(matches!(examples[3].context, ExampleContext::Snippet { .. }));
    if let ExampleContext::NoStd { features, .. } = &examples[1].context {
        assert!(features.contains(&"crypto".to_string()));
    }
    if let ExampleContext::Hardware { features, .. } = &examples[2].context {
        assert!(features.contains(&"gpio".to_string()));
    }
}

#[test]
fn fragment_ids_and_lines_follow_the_document() {
    let extractor = CodeExtractor::new().unwrap();
    let content = "intro\n```rust\nfn main() { }\n```\ntext\n```rust,no_std\n#![no_std]\n```\n";
    let examples = extractor.extract_from_content(content, "docs/guide/intro.md").unwrap();
    assert_eq!(examples.len(), 2);
    assert_eq!(examples[0].id, "intro_1");
    assert_eq!(examples[1].id, "intro_2");
    assert_eq!(examples[0].line_number, 2);
    assert_eq!(examples[1].line_number, 6);
    assert_eq!(examples[0].code, "fn main() { }");
    assert_eq!(examples[1].source_file, "docs/guide/intro.md");
}

#[test]
fn unclosed_block_is_dropped_but_counted() {
    let extractor = CodeExtractor::new().unwrap();
    let content = "```rust\nfn main() { }\n```\n```rust\nlet x = 1;\n";
    let examples = extractor.extract_from_content(content, "a.md").unwrap();
    assert_eq!(examples.len(), 1);
    assert_eq!(examples[0].id, "a_1");
    let content = "```rust\nlet broken = 1;\n```rust,no_std\n#![no_std]\n```\n";
    let examples = extractor.extract_from_content(content, "a.md").unwrap();
    assert_eq!(examples.len(), 1);
    assert_eq!(examples[0].code, "let broken = 1;");
}

#[test]
fn multi_line_code_keeps_line_breaks() {
    let extractor = CodeExtractor::new().unwrap();
    let content = "```rust\r\nfn main() {\r\n    run();\r\n}\r\n```\r\n";
    let examples = extractor.extract_from_content(content, "crlf.md").unwrap();
    assert_eq!(examples.len(), 1);
    assert_eq!(examples[0].code, "fn main() {\n    run();\n}");
}

#[test]
fn quoted_values_keep_commas_and_unterminated_quotes_are_text() {
    let annotations = parse_annotations("features=\"a,b\",no_std");
    assert_eq!(annotations.get("features"), Some(&Some("a,b".to_string())));
    assert_eq!(annotations.get("no_std"), Some(&None));
    let annotations = parse_annotations("features=\"a,b");
    assert_eq!(annotations.get("features"), Some(&Some("a,b".to_string())));
    let annotations = parse_annotations("");
    assert!(!annotations.contains_key(""));
    let annotations = parse_annotations(" key = value ,empty=");
    assert_eq!(annotations.get("key"), Some(&Some("value".to_string())));
    assert_eq!(annotations.get("empty"), None);
    let annotations = parse_annotations("a=1,a=2");
    assert_eq!(annotations.get("a"), Some(&Some("2".to_string())));
}

#[test]
fn explicit_annotations_override_content() {
    let extractor = CodeExtractor::new().unwrap();
    let annotations = parse_annotations("crypto");
    let context = extractor.infer_context(&annotations, "#![no_std]\nuse heapless::Vec;");
    match context {
        ExampleContext::Crypto { algorithm, features } => {
            assert_eq!(algorithm, None);
            assert_eq!(features, vec!["crypto".to_string()]);
        }
        _ => panic!("expected a crypto profile"),
    }
    let annotations = parse_annotations("hardware=RP2040,features=\"b, a\"");
    let context = extractor.infer_context(&annotations, "let x = 1;");
    match context {
        ExampleContext::Hardware { platform, features } => {
            assert_eq!(platform, "RP2040");
            assert_eq!(features, vec!["a".to_string(), "b".to_string(), "hardware".to_string()]);
        }
        _ => panic!("expected a hardware profile"),
    }
}

#[test]
fn content_heuristics_in_order() {
    let extractor = CodeExtractor::new().unwrap();
    let none = parse_annotations("");
    assert!(matches!(extractor.infer_context(&none, "use stm32f4xx_hal::gpio::Pin;\nfn main() { println!(\"x\"); }"), ExampleContext::Hardware { .. }));
    if let ExampleContext::Hardware { platform, .. } = extractor.infer_context(&none, "fn main() { let t = Timer::new(); }") {
        assert_eq!(platform, "generic");
    } else {
        panic!("expected a hardware profile");
    }
    if let ExampleContext::NoStd { target, .. } = extractor.infer_context(&none, "#![no_main]\nfn start() {}") {
        assert_eq!(target, "thumbv7em-none-eabihf");
    } else {
        panic!("expected a minimal-runtime profile");
    }
    assert!(matches!(extractor.infer_context(&none, "fn main() { encrypt(); }"), ExampleContext::Crypto { .. }));
    assert!(matches!(extractor.infer_context(&none, "// just a comment\n// another one"), ExampleContext::Snippet { .. }));
    assert!(matches!(extractor.infer_context(&none, "call_something(1, 2, 3)"), ExampleContext::Snippet { .. }));
    assert!(matches!(extractor.infer_context(&none, "struct Point { x: i32 }"), ExampleContext::Std { .. }));
}

#[test]
fn snippet_heuristics() {
    let extractor = CodeExtractor::new().unwrap();
    assert!(extractor.is_snippet_code("   "));
    assert!(extractor.is_snippet_code("x + 1"));
    assert!(extractor.is_snippet_code("let value = compute(1, 2);"));
    assert!(extractor.is_snippet_code("do_this();\n{ inner }\n...\nmore();"));
    assert!(!extractor.is_snippet_code("fn main() {\n    run();\n}"));
    assert!(!extractor.is_snippet_code("impl Foo for Bar {}"));
    assert!(!extractor.is_snippet_code("call(1);\n{ a }\nb();\nc();"));
}

#[test]
fn minimal_runtime_detection() {
    let extractor = CodeExtractor::new().unwrap();
    assert!(extractor.is_no_std_code("use heapless::Vec;"));
    assert!(!extractor.is_no_std_code("use heapless::Vec;\nuse std::fmt;"));
    assert!(extractor.is_no_std_code("#![no_std]\nfn main() { println!(\"x\"); }"));
    assert!(!extractor.is_no_std_code("fn main() {}"));
    assert!(extractor.is_hardware_code("let p = gpio::Pin::new();"));
    assert!(!extractor.is_hardware_code("let p = 1;"));
}

#[test]
fn annotation_strings_round_trip() {
    let text = "no_std,target=\"thumbv6m-none-eabi\",features=\"a,b\",snippet=\"x=y\"";
    let parsed = parse_annotations(text);
    let written = parsed.to_annotation_string();
    assert_eq!(written, text);
    let again = parse_annotations(&written);
    assert_eq!(again.to_annotation_string(), written);
    assert_eq!(again.get("features"), Some(&Some("a,b".to_string())));
    assert_eq!(again.get("snippet"), Some(&Some("x=y".to_string())));
    let bare = parse_annotations("no_std,target=thumbv6m-none-eabi");
    assert_eq!(bare.to_annotation_string(), "no_std,target=\"thumbv6m-none-eabi\"");
}

#[test]
fn fragment_summary() {
    let example = CodeExample::new(
        "guide_2".to_string(),
        "docs/guide.md".to_string(),
        14,
        "fn main() {}".to_string(),
        ExampleContext::NoStd { target: "thumbv6m-none-eabi".to_string(), features: vec!["a".to_string()] },
    );
    assert_eq!(example.summary(), "Example guide_2 from docs/guide.md:14 (NoStd(thumbv6m-none-eabi)[a])");
}

#[test]
fn parse_write_parse_is_stable() {
    let first = parse_annotations("hardware=\"STM32F4\",features=\"crypto,hardware\",no_std");
    let text = first.to_annotation_string();
    let second = parse_annotations(&text);
    assert_eq!(second.to_annotation_string(), text);
    assert_eq!(second.get("features"), first.get("features"));
    assert_eq!(second.get("hardware"), first.get("hardware"));
    assert_eq!(second.get("no_std"), first.get("no_std"));
}
