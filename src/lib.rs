//! Validation of code fragments embedded in documentation: extraction, runtime-profile
//! classification, dependency inference, recovery decisions and run reports.
pub mod annotations;
pub mod cache;
pub mod degradation;
pub mod dependency_resolver;
pub mod error_recovery;
pub mod example_tester;
pub mod extractor;
pub mod preprocessor;
pub mod sorted;
pub mod test_config;
pub mod text;
pub mod toolchain_manager;

pub use annotations::{parse_annotations, Annotations};
pub use cache::{cache_key_of, CacheEntry, CachedTestResult, ResultCache};
pub use degradation::{DegradationStrategy, GracefulDegradationManager};
pub use dependency_resolver::{Dependency, DependencyInfo, DependencyResolver};
pub use error_recovery::{ErrorRecoveryManager, RecoveryAction};
pub use example_tester::RustExampleTester;
pub use extractor::{CodeExample, CodeExtractor, ExampleContext};
pub use preprocessor::{encode_text, simple_hash};
pub use test_config::{CompilationError, RecoveryStatistics, TestConfig, TestResult, ValidationReport};
pub use toolchain_manager::{SystemInfo, TargetInfo, TargetType, ToolchainManager};
