use rust_examples::{CompilationError, ExampleContext, TargetInfo, TargetType, TestConfig, ToolchainManager};

#[test]
fn test_toolchain_manager_creation() {
    let manager = ToolchainManager::new();
    assert!(manager.is_ok());
}

#[test]
fn test_target_info_creation() {
    let target_info = TargetInfo {
        target: "x86_64-unknown-linux-gnu".to_string(),
        installed: true,
        target_type: TargetType::Std,
        required_features: vec![],
        default_dependencies: vec!["std".to_string()],
    };
    assert_eq!(target_info.target_type, TargetType::Std);
    assert!(target_info.installed);
}

#[test]
fn test_get_available_targets() {
    let manager = ToolchainManager::new().unwrap();
    let config = TestConfig::default();
    let targets = manager.get_available_targets(&config);
    assert!(!targets.is_empty());
}

#[test]
fn test_embedded_config_targets() {
    let mut manager = ToolchainManager::new().unwrap();
    let config = TestConfig::embedded();
    assert!(manager.get_available_targets(&config).is_empty());
    manager.record_installed("x86_64-unknown-linux-gnu\n  thumbv6m-none-eabi  \n");
    assert_eq!(manager.get_available_targets(&config), vec!["thumbv6m-none-eabi".to_string()]);
    manager.record_installed("riscv32imac-unknown-none-elf\n");
    let mut odd = TestConfig::embedded();
    odd.targets = vec!["x86_64-unknown-linux-gnu".to_string()];
    assert_eq!(manager.get_available_targets(&odd), vec!["riscv32imac-unknown-none-elf".to_string()]);
}

#[test]
fn test_target_type_matching() {
    let manager = ToolchainManager::new().unwrap();
    if let Some(info) = manager.get_target_info("x86_64-unknown-linux-gnu") {
        assert_eq!(info.target_type, TargetType::Std);
    }
    if let Some(info) = manager.get_target_info("thumbv7em-none-eabihf") {
        assert_eq!(info.target_type, TargetType::Embedded);
    }
    assert!(manager.get_target_info("unknown-target").is_none());
}

#[test]
fn test_system_info() {
    let manager = ToolchainManager::new().unwrap();
    let system_info = manager.get_system_info(Some("cargo 1.80.0".to_string()), Some("rustc 1.80.0".to_string()), None);
    if let Ok(info) = system_info {
        assert!(!info.cargo_version.is_empty());
        assert!(!info.rustc_version.is_empty());
        assert_eq!(info.available_targets, 9);
        assert_eq!(info.installed_targets, 0);
    } else {
        panic!("versions were given");
    }
    assert!(manager.get_system_info(None, Some("rustc".to_string()), None).is_err());
}

#[test]
fn test_recommended_dependencies() {
    let manager = ToolchainManager::new().unwrap();
    let deps = manager.get_recommended_dependencies("thumbv7em-none-eabihf");
    assert!(deps.contains(&"cortex-m".to_string()));
    assert!(deps.contains(&"cortex-m-rt".to_string()));
    assert!(manager.get_recommended_dependencies("nowhere").is_empty());
}

#[test]
fn installed_listing_marks_exact_lines_only() {
    let mut manager = ToolchainManager::new().unwrap();
    manager.record_installed("x86_64-unknown-linux-gnu\nthumbv7em-none-eabihf-extra\n");
    let installed: Vec<String> = manager.get_installed_targets().into_iter().map(|t| t.target).collect();
    assert_eq!(installed, vec!["x86_64-unknown-linux-gnu".to_string()]);
    assert_eq!(manager.get_targets_by_type(TargetType::Embedded).len(), 0);
    assert_eq!(manager.get_targets_by_type(TargetType::Std).len(), 1);
    let config = TestConfig::default();
    assert_eq!(manager.get_available_targets(&config), vec!["x86_64-unknown-linux-gnu".to_string()]);
}

#[test]
fn compatible_targets_follow_the_profile() {
    let mut manager = ToolchainManager::new().unwrap();
    let std_profile = ExampleContext::Std { features: vec![] };
    let requested = vec!["thumbv7em-none-eabihf".to_string(), "x86_64-apple-darwin".to_string()];
    assert_eq!(manager.compatible_targets(&std_profile, &requested).unwrap(), vec!["x86_64-unknown-linux-gnu".to_string()]);
    let hardware = ExampleContext::Hardware { platform: "STM32F4".to_string(), features: vec![] };
    assert!(matches!(manager.compatible_targets(&hardware, &requested), Err(CompilationError::TargetError { .. })));
    manager.record_installed("thumbv7em-none-eabihf\nx86_64-apple-darwin\n");
    assert_eq!(manager.compatible_targets(&hardware, &requested).unwrap(), vec!["thumbv7em-none-eabihf".to_string()]);
    assert_eq!(manager.compatible_targets(&std_profile, &requested).unwrap(), vec!["x86_64-apple-darwin".to_string()]);
    let restricted = ExampleContext::NoStd { target: "thumbv6m-none-eabi".to_string(), features: vec![] };
    assert_eq!(manager.compatible_targets(&restricted, &requested).unwrap(), vec!["thumbv7em-none-eabihf".to_string()]);
    let snippet = ExampleContext::Snippet { reason: "r".to_string() };
    assert!(manager.compatible_targets(&snippet, &requested).unwrap().is_empty());
}

#[test]
fn ensured_targets_keep_the_available_ones() {
    let manager = ToolchainManager::new().unwrap();
    let config = TestConfig::embedded();
    assert_eq!(manager.ensure_targets_for_config(&config, &vec![false, true]).unwrap(), vec!["thumbv6m-none-eabi".to_string()]);
    match manager.ensure_targets_for_config(&config, &vec![false, false]) {
        Err(CompilationError::TargetError { incompatible_target, reason }) => {
            assert_eq!(incompatible_target, "thumbv7em-none-eabihf, thumbv6m-none-eabi");
            assert_eq!(reason, "No targets could be installed or are available");
        }
        other => panic!("unexpected {:?}", other),
    }
}
