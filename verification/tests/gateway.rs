use jan_gateway::extensions::{is_manifest_path, should_reinstall, ExtensionManifest};
use jan_gateway::gateway::{generate_app_token, GatewayError, GatewayState};
use jan_gateway::hardware::GpuInfo;

#[test]
fn test_start_twice_fails_stop_twice_is_noop() {
    let mut gw = GatewayState::new();

    let first = gw.start_server(
        "/v1/app".to_string(),
        "tok".to_string(),
        "".to_string(),
        Vec::new(),
    );
    assert!(first.is_ok());

    // second start without a stop: refused, slot unchanged
    let second = gw.start_server(
        "/v1/app".to_string(),
        "tok".to_string(),
        "".to_string(),
        Vec::new(),
    );
    match second {
        Err(e) => assert_eq!(e, GatewayError::AlreadyRunning),
        Ok(_) => panic!("second start must fail"),
    }

    // stopping twice: the second is a no-op, neither fails
    assert!(gw.stop_server());
    assert!(!gw.stop_server());

    // after stopping, a start succeeds again
    assert!(gw
        .start_server("/v1/app".to_string(), "tok".to_string(), "".to_string(), Vec::new())
        .is_ok());
}

#[test]
fn test_start_returns_configured_proxy() {
    let mut gw = GatewayState::new();
    let cfg = gw
        .start_server(
            "/v1/app".to_string(),
            "apptoken".to_string(),
            "apikey".to_string(),
            vec!["my.host".to_string()],
        )
        .unwrap();
    assert_eq!(cfg.upstream, "http://127.0.0.1:39291");
    assert_eq!(cfg.prefix, "/v1/app");
    assert_eq!(cfg.auth_token, "apptoken");
    assert_eq!(cfg.api_key, "apikey");
    assert_eq!(cfg.trusted_hosts, vec!["my.host".to_string()]);
}

#[test]
fn test_gateway_error_message() {
    assert_eq!(GatewayError::AlreadyRunning.message(), "Server is already running");
}

#[test]
fn test_app_token_shape() {
    let t1 = generate_app_token();
    let t2 = generate_app_token();
    assert_eq!(t1.chars().count(), 32);
    assert!(t1.chars().all(|c| c.is_ascii_alphanumeric()));
    assert!(t2.chars().all(|c| c.is_ascii_alphanumeric()));
    // two independent draws almost surely differ
    assert_ne!(t1, t2);
}

#[test]
fn test_gpu_usage_lookup() {
    let gpu = GpuInfo {
        uuid: "uuid-1".to_string(),
        name: "Radeon A".to_string(),
        total_memory: 8192,
    };
    let readings = vec![
        ("Radeon B".to_string(), 100u64),
        ("Radeon A".to_string(), 2048u64),
        ("Radeon A".to_string(), 999u64),
    ];
    let usage = gpu.get_usage_amd(&readings);
    assert_eq!(usage.uuid, "uuid-1");
    assert_eq!(usage.used_memory, 999); // a repeated name keeps its last reading
    assert_eq!(usage.total_memory, 8192);
}

#[test]
fn test_gpu_usage_from_reading() {
    let gpu = GpuInfo {
        uuid: "uuid-3".to_string(),
        name: "Radeon D".to_string(),
        total_memory: 16384,
    };
    let measured = gpu.usage_from_reading(Some((16384, 512)));
    assert_eq!(measured.uuid, "uuid-3");
    assert_eq!(measured.total_memory, 16384);
    assert_eq!(measured.used_memory, 512);

    let unmeasured = gpu.usage_from_reading(None);
    assert_eq!(unmeasured.total_memory, 0);
    assert_eq!(unmeasured.used_memory, 0);
}

#[test]
fn test_gpu_usage_missing_is_unsupported() {
    let gpu = GpuInfo {
        uuid: "uuid-2".to_string(),
        name: "Radeon C".to_string(),
        total_memory: 4096,
    };
    let readings = vec![("Radeon A".to_string(), 2048u64)];
    let usage = gpu.get_usage_amd(&readings);
    assert_eq!(usage.uuid, "uuid-2");
    assert_eq!(usage.used_memory, 0);
    assert_eq!(usage.total_memory, 0);
}

#[test]
fn test_manifest_path_recognition() {
    assert!(is_manifest_path("package/package.json"));
    assert!(is_manifest_path("package.json"));
    assert!(!is_manifest_path("package/src/package.json"));
    assert!(!is_manifest_path("README.md"));
}

#[test]
fn test_should_reinstall_rules() {
    // same version and folder present: nothing to do
    assert!(!should_reinstall(false, false, "1.0.0", "1.0.0", true));
    // force or a requested clean run always reinstalls
    assert!(should_reinstall(true, false, "1.0.0", "1.0.0", true));
    assert!(should_reinstall(false, true, "1.0.0", "1.0.0", true));
    // a version change or a missing folder reinstalls
    assert!(should_reinstall(false, false, "1.0.0", "1.1.0", true));
    assert!(should_reinstall(false, false, "1.0.0", "1.0.0", false));
}

#[test]
fn test_manifest_entry_url() {
    let with_main = ExtensionManifest {
        name: "ext".to_string(),
        main: Some("dist/main.js".to_string()),
        description: None,
        version: None,
        product_name: None,
    };
    assert_eq!(with_main.main_entry(), "dist/main.js");
    assert_eq!(with_main.entry_url("/data/extensions/ext"), "/data/extensions/ext/dist/main.js");

    let without_main = ExtensionManifest {
        name: "ext".to_string(),
        main: None,
        description: None,
        version: None,
        product_name: None,
    };
    assert_eq!(without_main.main_entry(), "index.js");
    assert_eq!(without_main.entry_url("/e"), "/e/index.js");
}
