use gen_serving_gateway::backend::registry::BackendRegistry;
use gen_serving_gateway::config::{BackendConfig, ProtocolType};
use gen_serving_gateway::error::ErrorKind;

fn http_config() -> BackendConfig {
    BackendConfig {
        name: "test-backend".to_string(),
        protocol: ProtocolType::Http,
        endpoints: vec!["http://localhost:8001".to_string()],
        health_check_path: "/health".to_string(),
        health_check_interval_secs: 30,
        timeout_ms: 60000,
        weight: 1,
        enabled: true,
        ..Default::default()
    }
}

fn no_env() -> Vec<(String, String)> {
    Vec::new()
}

#[test]
fn registry_test_registry_creation() {
    let registry = BackendRegistry::new();
    assert!(registry.is_empty());
}

#[test]
fn backend_tests_test_registry_creation() {
    let registry = BackendRegistry::new();
    assert!(registry.is_empty());
    assert_eq!(registry.len(), 0);
}

#[test]
fn test_registry_add_http_backend() {
    let mut registry = BackendRegistry::new();

    let result = registry.add_backend(http_config(), &no_env());
    assert!(result.is_ok());
    assert_eq!(registry.len(), 1);
    assert!(registry.contains("test-backend"));
}

#[test]
fn backend_tests_test_registry_remove_backend() {
    let mut registry = BackendRegistry::new();

    registry.add_backend(http_config(), &no_env()).unwrap();
    assert_eq!(registry.len(), 1);

    let result = registry.remove_backend("test-backend");
    assert!(result.is_ok());
    assert!(registry.is_empty());
}

#[test]
fn test_registry_remove_nonexistent() {
    let mut registry = BackendRegistry::new();
    let result = registry.remove_backend("nonexistent");
    assert!(result.is_err());
}

#[test]
fn backend_tests_test_registry_duplicate_backend() {
    let mut registry = BackendRegistry::new();

    registry.add_backend(http_config(), &no_env()).unwrap();
    let result = registry.add_backend(http_config(), &no_env());
    assert!(result.is_err());
}

#[test]
fn remove_nonexistent_names_the_backend() {
    let mut registry = BackendRegistry::new();
    let error = registry.remove_backend("nonexistent").unwrap_err();
    assert_eq!(error.kind(), ErrorKind::BackendNotFound);
    assert_eq!(error.message(), "nonexistent");
    assert_eq!(error.status_code(), 404);
}

#[test]
fn duplicate_add_is_an_invalid_request_and_changes_nothing() {
    let mut registry = BackendRegistry::new();
    registry.add_backend(http_config(), &no_env()).unwrap();

    let mut second = http_config();
    second.weight = 7;
    let error = registry.add_backend(second, &no_env()).unwrap_err();

    assert_eq!(error.kind(), ErrorKind::InvalidRequest);
    assert_eq!(error.message(), "Backend 'test-backend' already exists");
    assert_eq!(error.status_code(), 400);
    assert_eq!(registry.len(), 1);
    assert_eq!(registry.get("test-backend").unwrap().weight(), 1);
}

#[test]
fn two_distinct_backends_are_both_listed() {
    let mut registry = BackendRegistry::new();
    let mut a = http_config();
    a.name = "a".to_string();
    let mut b = http_config();
    b.name = "b".to_string();
    registry.add_backend(a, &no_env()).unwrap();
    registry.add_backend(b, &no_env()).unwrap();

    let names: Vec<String> = registry.list_backends().into_iter().map(|s| s.name).collect();
    assert_eq!(names, vec!["a".to_string(), "b".to_string()]);

    registry.remove_backend("a").unwrap();
    assert!(registry.get("a").is_none());
    assert!(registry.get("b").is_some());
}

#[test]
fn add_then_remove_restores_the_size() {
    let mut registry = BackendRegistry::new();
    let mut other = http_config();
    other.name = "other".to_string();
    registry.add_backend(other, &no_env()).unwrap();
    let before = registry.len();

    registry.add_backend(http_config(), &no_env()).unwrap();
    assert_eq!(registry.len(), before + 1);
    registry.remove_backend("test-backend").unwrap();
    assert_eq!(registry.len(), before);
}

#[test]
fn a_freed_slot_is_taken_by_the_next_backend() {
    let mut registry = BackendRegistry::new();
    for name in ["a", "b", "c"] {
        let mut config = http_config();
        config.name = name.to_string();
        registry.add_backend(config, &no_env()).unwrap();
    }
    registry.remove_backend("a").unwrap();
    let mut d = http_config();
    d.name = "d".to_string();
    registry.add_backend(d, &no_env()).unwrap();

    let names: Vec<String> = registry.get_all().iter().map(|a| a.name().to_string()).collect();
    assert_eq!(names, vec!["d".to_string(), "b".to_string(), "c".to_string()]);
    assert_eq!(registry.len(), 3);
}

#[test]
fn unsupported_image_protocol_is_a_config_error() {
    let mut registry = BackendRegistry::new();
    let mut config = http_config();
    config.protocol = ProtocolType::Anthropic;
    let error = registry.add_backend(config, &no_env()).unwrap_err();

    assert_eq!(error.kind(), ErrorKind::Config);
    assert_eq!(error.message(), "Unsupported protocol for image backend: anthropic");
    assert_eq!(error.status_code(), 500);
    assert!(registry.is_empty());
}

#[test]
fn initialization_skips_disabled_and_unsupported_entries() {
    let mut registry = BackendRegistry::new();
    let mut disabled = http_config();
    disabled.name = "off".to_string();
    disabled.enabled = false;
    let mut unsupported = http_config();
    unsupported.name = "tgi".to_string();
    unsupported.protocol = ProtocolType::Tgi;
    let mut grpc = http_config();
    grpc.name = "grpc".to_string();
    grpc.protocol = ProtocolType::Grpc;

    let result =
        registry.initialize_from_config(&vec![disabled, http_config(), unsupported, grpc], &no_env());

    assert!(result.is_ok());
    assert_eq!(registry.len(), 2);
    assert!(registry.contains("test-backend"));
    assert!(registry.contains("grpc"));
    assert!(!registry.contains("off"));
    assert!(!registry.contains("tgi"));
}

#[test]
fn token_is_read_from_the_environment_snapshot() {
    let mut registry = BackendRegistry::new();
    let mut config = http_config();
    config.auth.token_env = Some("BACKEND_TOKEN".to_string());
    config.auth.api_key = Some("literal".to_string());
    let env = vec![
        ("OTHER".to_string(), "x".to_string()),
        ("BACKEND_TOKEN".to_string(), "from-env".to_string()),
        ("BACKEND_TOKEN".to_string(), "shadowed".to_string()),
    ];
    registry.add_backend(config, &env).unwrap();

    let headers = registry.get("test-backend").unwrap().get_headers();
    assert_eq!(
        headers,
        vec![
            ("content-type".to_string(), "application/json".to_string()),
            ("authorization".to_string(), "Bearer from-env".to_string()),
        ]
    );
}

#[test]
fn a_token_variable_that_is_not_set_gives_no_token() {
    let mut registry = BackendRegistry::new();
    let mut config = http_config();
    config.auth.token_env = Some("MISSING".to_string());
    config.auth.api_key = Some("literal".to_string());
    registry.add_backend(config, &no_env()).unwrap();

    let headers = registry.get("test-backend").unwrap().get_headers();
    assert_eq!(headers, vec![("content-type".to_string(), "application/json".to_string())]);
}
