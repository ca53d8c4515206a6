use lispkit::sandbox::{
    parse_capability, parse_duration, parse_memory_size, Capability, SandboxConfig,
    SandboxMonitor, SandboxViolation,
};

#[test]
fn test_sandbox_config_default() {
    let config = SandboxConfig::new();
    assert_eq!(config.max_memory, 100 * 1024 * 1024);
    assert_eq!(config.max_execution_time, 30_000);
    assert!(!config.permitted_network_access);
    assert!(config.allowed_file_paths.is_empty());
    assert!(!config.safe_rust_apis.is_empty());
}

#[test]
fn test_sandbox_config_builder() {
    let config = SandboxConfig::new()
        .with_max_memory(50 * 1024 * 1024)
        .with_max_execution_time(10_000)
        .with_network_access(true)
        .allow_file_path("/tmp".to_string());

    assert_eq!(config.max_memory, 50 * 1024 * 1024);
    assert_eq!(config.max_execution_time, 10_000);
    assert!(config.permitted_network_access);
    assert_eq!(config.allowed_file_paths.len(), 1);
}

#[test]
fn test_capability_management() {
    let mut config = SandboxConfig::new();
    let cap = Capability::FileRead("/tmp/test.txt".to_string());

    assert!(!config.has_capability(&cap));
    config.add_capability(cap.clone());
    assert!(config.has_capability(&cap));
}

#[test]
fn test_sandbox_monitor_memory_limit() {
    let config = SandboxConfig::new().with_max_memory(1000);
    let mut monitor = SandboxMonitor::new(config);

    assert!(monitor.allocate_memory(500).is_ok());
    assert_eq!(monitor.current_memory_usage(), 500);

    assert!(monitor.allocate_memory(600).is_err());
    assert_eq!(monitor.current_memory_usage(), 500);

    monitor.deallocate_memory(200);
    assert_eq!(monitor.current_memory_usage(), 300);
}

#[test]
fn test_file_access_check() {
    let config = SandboxConfig::new().allow_file_path("/tmp".to_string());
    let monitor = SandboxMonitor::new(config);

    assert!(monitor.check_file_access(&"/tmp/test.txt".to_string()).is_ok());

    assert!(monitor.check_file_access(&"/etc/passwd".to_string()).is_err());
}

#[test]
fn test_file_access_component_boundary() {
    let config = SandboxConfig::new().allow_file_path("/tmp".to_string());
    let monitor = SandboxMonitor::new(config);
    // A sibling directory that merely shares the prefix text stays barred.
    assert!(monitor.check_file_access(&"/tmpx/evil".to_string()).is_err());
    assert!(monitor.check_file_access(&"/tmp".to_string()).is_ok());
}

#[test]
fn test_capability_check() {
    let mut config = SandboxConfig::new();
    config.add_capability(Capability::SystemTime);
    let monitor = SandboxMonitor::new(config);

    assert!(monitor.check_capability(&Capability::SystemTime).is_ok());

    assert!(monitor.check_capability(&Capability::NetworkHTTP).is_err());
}

#[test]
fn test_api_usage_check() {
    let config = SandboxConfig::new();
    let monitor = SandboxMonitor::new(config);

    assert!(monitor.check_api_usage("std::println").is_ok());

    assert!(monitor.check_api_usage("std::fs::remove_file").is_err());
}

#[test]
fn test_sandbox_violation_display() {
    let violation = SandboxViolation::MemoryLimitExceeded {
        limit: 1000,
        attempted: 1500,
    };
    let message = violation.render();
    assert!(message.contains("Memory limit exceeded"));
    assert!(message.contains("1000"));
    assert!(message.contains("1500"));
}

#[test]
fn test_memory_allocation_tracking() {
    let config = SandboxConfig::new().with_max_memory(1000);
    let mut monitor = SandboxMonitor::new(config);

    assert!(monitor.allocate_memory(300).is_ok());
    assert!(monitor.allocate_memory(400).is_ok());
    assert_eq!(monitor.current_memory_usage(), 700);

    assert!(monitor.allocate_memory(200).is_ok());
    assert_eq!(monitor.current_memory_usage(), 900);

    assert!(monitor.allocate_memory(200).is_err());
    assert_eq!(monitor.current_memory_usage(), 900);
}

#[test]
fn test_default_safe_apis() {
    let config = SandboxConfig::new();
    assert!(config.safe_rust_apis.contains(&"std::println".to_string()));
    assert!(config.safe_rust_apis.contains(&"std::vec::Vec".to_string()));
    assert!(config.safe_rust_apis.contains(&"std::string::String".to_string()));
}

#[test]
fn test_time_limit_shape_of_error() {
    // The clock itself cannot be pinned down; the decision rule can.
    let r = lispkit::sandbox::time_check(31_000, 30_000);
    match r {
        Err(SandboxViolation::ExecutionTimeExceeded { limit, elapsed }) => {
            assert_eq!(limit, 30_000);
            assert_eq!(elapsed, 31_000);
        }
        _ => panic!("Expected ExecutionTimeExceeded"),
    }
    assert!(lispkit::sandbox::time_check(30_000, 30_000).is_ok());
}

#[test]
fn test_parse_memory_size_bytes() {
    assert_eq!(parse_memory_size("1024").unwrap(), 1024);
    assert_eq!(parse_memory_size("512").unwrap(), 512);
}

#[test]
fn test_parse_memory_size_kb() {
    assert_eq!(parse_memory_size("1KB").unwrap(), 1024);
    assert_eq!(parse_memory_size("10kb").unwrap(), 10 * 1024);
    assert_eq!(parse_memory_size("5 KB").unwrap(), 5 * 1024);
}

#[test]
fn test_parse_memory_size_mb() {
    assert_eq!(parse_memory_size("1MB").unwrap(), 1024 * 1024);
    assert_eq!(parse_memory_size("100mb").unwrap(), 100 * 1024 * 1024);
    assert_eq!(parse_memory_size("50 MB").unwrap(), 50 * 1024 * 1024);
}

#[test]
fn test_parse_memory_size_gb() {
    assert_eq!(parse_memory_size("1GB").unwrap(), 1024 * 1024 * 1024);
    assert_eq!(parse_memory_size("2gb").unwrap(), 2 * 1024 * 1024 * 1024);
}

#[test]
fn test_parse_memory_size_invalid() {
    assert!(parse_memory_size("abc").is_err());
    assert!(parse_memory_size("100XB").is_err());
    assert!(parse_memory_size("").is_err());
}

#[test]
fn test_parse_duration_seconds() {
    assert_eq!(parse_duration("30s").unwrap(), 30_000);
    assert_eq!(parse_duration("5sec").unwrap(), 5_000);
    assert_eq!(parse_duration("120").unwrap(), 120_000);
}

#[test]
fn test_parse_duration_minutes() {
    assert_eq!(parse_duration("5m").unwrap(), 300_000);
    assert_eq!(parse_duration("10min").unwrap(), 600_000);
    assert_eq!(parse_duration("2mins").unwrap(), 120_000);
}

#[test]
fn test_parse_duration_hours() {
    assert_eq!(parse_duration("1h").unwrap(), 3_600_000);
    assert_eq!(parse_duration("2hour").unwrap(), 7_200_000);
    assert_eq!(parse_duration("3hours").unwrap(), 10_800_000);
}

#[test]
fn test_parse_duration_invalid() {
    assert!(parse_duration("abc").is_err());
    assert!(parse_duration("100x").is_err());
    assert!(parse_duration("").is_err());
}

#[test]
fn test_parse_capability_simple() {
    assert_eq!(parse_capability("NetworkHTTP").unwrap(), Capability::NetworkHTTP);
    assert_eq!(parse_capability("SystemTime").unwrap(), Capability::SystemTime);
    assert_eq!(parse_capability("ProcessSpawn").unwrap(), Capability::ProcessSpawn);
    assert_eq!(parse_capability("UnsafeRust").unwrap(), Capability::UnsafeRust);
}

#[test]
fn test_parse_capability_file_read() {
    match parse_capability("FileRead:/tmp/test.txt").unwrap() {
        Capability::FileRead(path) => assert_eq!(path, "/tmp/test.txt"),
        _ => panic!("Expected FileRead capability"),
    }
}

#[test]
fn test_parse_capability_file_write() {
    match parse_capability("FileWrite:/var/log").unwrap() {
        Capability::FileWrite(path) => assert_eq!(path, "/var/log"),
        _ => panic!("Expected FileWrite capability"),
    }
}

#[test]
fn test_parse_capability_invalid() {
    assert!(parse_capability("UnknownCapability").is_err());
    assert!(parse_capability("").is_err());
}
