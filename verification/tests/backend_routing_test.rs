use gen_serving_gateway::backend::registry::BackendRegistry;
use gen_serving_gateway::config::{BackendConfig, ProtocolType};
use gen_serving_gateway::error::ErrorKind;
use gen_serving_gateway::gateway::load_balancer::LoadBalancer;
use gen_serving_gateway::gateway::router::{Router as GatewayRouter, RouterConfig};

fn protocol_of(name: &str) -> ProtocolType {
    match name {
        "grpc" => ProtocolType::Grpc,
        _ => ProtocolType::Http,
    }
}

fn create_test_config(name: &str, protocol: &str, weight: u32) -> BackendConfig {
    BackendConfig {
        name: name.to_string(),
        protocol: protocol_of(protocol),
        endpoints: vec![format!("http://{}:8001", name)],
        health_check_path: "/health".to_string(),
        health_check_interval_secs: 30,
        timeout_ms: 60000,
        weight,
        enabled: true,
        ..Default::default()
    }
}

fn no_env() -> Vec<(String, String)> {
    Vec::new()
}

#[test]
fn test_router_with_specific_backend() {
    let mut registry = BackendRegistry::new();

    // Add backends
    registry.add_backend(create_test_config("backend-1", "http", 1), &no_env()).unwrap();
    registry.add_backend(create_test_config("backend-2", "http", 1), &no_env()).unwrap();

    let mut balancer = LoadBalancer::new();
    let router = GatewayRouter::new();

    // Should route to specific backend when requested
    let backend = router.route(&registry, &mut balancer, Some("backend-1"), None).unwrap();
    assert_eq!(backend.name(), "backend-1");
}

#[test]
fn test_router_nonexistent_backend() {
    let registry = BackendRegistry::new();
    let mut balancer = LoadBalancer::new();
    let router = GatewayRouter::new();

    // Should fail for nonexistent backend
    let result = router.route(&registry, &mut balancer, Some("nonexistent"), None);
    assert!(result.is_err());
}

#[test]
fn test_router_default_backend() {
    let mut registry = BackendRegistry::new();

    registry.add_backend(create_test_config("default-backend", "http", 1), &no_env()).unwrap();
    registry.add_backend(create_test_config("other-backend", "http", 1), &no_env()).unwrap();

    let mut balancer = LoadBalancer::new();

    let config =
        RouterConfig { default_backend: Some("default-backend".to_string()), fallback_enabled: true };

    let router = GatewayRouter::with_config(config);

    // Without specific backend, should use default
    let backend = router.route(&registry, &mut balancer, None, None).unwrap();
    assert_eq!(backend.name(), "default-backend");
}

#[test]
fn test_router_fallback_when_no_default() {
    let mut registry = BackendRegistry::new();

    registry.add_backend(create_test_config("backend-1", "http", 1), &no_env()).unwrap();

    let mut balancer = LoadBalancer::new();

    let config = RouterConfig { default_backend: None, fallback_enabled: true };

    let router = GatewayRouter::with_config(config);

    // Should fall back to any healthy backend
    let result = router.route(&registry, &mut balancer, None, None);
    assert!(result.is_ok());
}

#[test]
fn test_router_no_fallback() {
    let mut registry = BackendRegistry::new();

    registry.add_backend(create_test_config("backend-1", "http", 1), &no_env()).unwrap();

    let mut balancer = LoadBalancer::new();

    let config = RouterConfig { default_backend: None, fallback_enabled: false };

    let router = GatewayRouter::with_config(config);

    // Without default and fallback disabled, should fail
    let result = router.route(&registry, &mut balancer, None, None);
    assert!(result.is_err());
}

#[test]
fn test_router_model_based_routing() {
    let mut registry = BackendRegistry::new();

    registry.add_backend(create_test_config("stable-diffusion", "http", 1), &no_env()).unwrap();
    registry.add_backend(create_test_config("dalle-backend", "http", 1), &no_env()).unwrap();

    let mut balancer = LoadBalancer::new();

    let config = RouterConfig { default_backend: None, fallback_enabled: true };

    let router = GatewayRouter::with_config(config);

    // Should route based on model name matching backend name
    let backend =
        router.route(&registry, &mut balancer, None, Some("stable-diffusion-v1")).unwrap();
    assert_eq!(backend.name(), "stable-diffusion");
}

#[test]
fn test_registry_list_backends() {
    let mut registry = BackendRegistry::new();

    registry.add_backend(create_test_config("backend-1", "http", 1), &no_env()).unwrap();
    registry.add_backend(create_test_config("backend-2", "http", 2), &no_env()).unwrap();
    registry.add_backend(create_test_config("backend-3", "grpc", 1), &no_env()).unwrap();

    let backends = registry.list_backends();

    assert_eq!(backends.len(), 3);

    // Check that we have backends of different types
    let protocols: Vec<_> = backends.iter().map(|b| b.protocol.as_str()).collect();
    assert!(protocols.contains(&"http"));
    assert!(protocols.contains(&"grpc"));
}

#[test]
fn backend_routing_test_test_registry_remove_backend() {
    let mut registry = BackendRegistry::new();

    registry.add_backend(create_test_config("to-remove", "http", 1), &no_env()).unwrap();
    assert!(registry.contains("to-remove"));

    registry.remove_backend("to-remove").unwrap();
    assert!(!registry.contains("to-remove"));
}

#[test]
fn backend_routing_test_test_registry_duplicate_backend() {
    let mut registry = BackendRegistry::new();

    registry.add_backend(create_test_config("duplicate", "http", 1), &no_env()).unwrap();

    // Adding duplicate should fail
    let result = registry.add_backend(create_test_config("duplicate", "http", 1), &no_env());
    assert!(result.is_err());
}

#[test]
fn default_backend_wins_over_other_enabled_backends() {
    let mut registry = BackendRegistry::new();
    registry.add_backend(create_test_config("other", "http", 1), &no_env()).unwrap();
    registry.add_backend(create_test_config("sd", "http", 1), &no_env()).unwrap();
    let mut balancer = LoadBalancer::new();
    let router = GatewayRouter::with_config(RouterConfig {
        default_backend: Some("sd".to_string()),
        fallback_enabled: false,
    });

    for _ in 0..10 {
        let backend = router.route(&registry, &mut balancer, None, None).unwrap();
        assert_eq!(backend.name(), "sd");
    }
}

#[test]
fn refusal_is_no_healthy_backends() {
    let mut registry = BackendRegistry::new();
    registry.add_backend(create_test_config("backend-1", "http", 1), &no_env()).unwrap();
    let mut balancer = LoadBalancer::new();
    let router =
        GatewayRouter::with_config(RouterConfig { default_backend: None, fallback_enabled: false });

    let error = router.route(&registry, &mut balancer, None, None).err().unwrap();
    assert_eq!(error.kind(), ErrorKind::NoHealthyBackends);
    assert_eq!(error.status_code(), 503);
}

#[test]
fn policy_order_name_then_model_then_default() {
    let mut registry = BackendRegistry::new();
    registry.add_backend(create_test_config("sd", "http", 1), &no_env()).unwrap();
    registry.add_backend(create_test_config("dalle", "http", 1), &no_env()).unwrap();
    registry.add_backend(create_test_config("flux", "http", 1), &no_env()).unwrap();
    let mut balancer = LoadBalancer::new();
    let router = GatewayRouter::with_config(RouterConfig {
        default_backend: Some("flux".to_string()),
        fallback_enabled: false,
    });

    // A registered name wins over the model.
    let backend = router.route(&registry, &mut balancer, Some("dalle"), Some("sd-xl")).unwrap();
    assert_eq!(backend.name(), "dalle");
    // A name that is not registered does not: the model decides.
    let backend = router.route(&registry, &mut balancer, Some("gone"), Some("sd-xl")).unwrap();
    assert_eq!(backend.name(), "sd");
    // The first backend in registry order whose name stands in the model.
    let backend = router.route(&registry, &mut balancer, None, Some("dalle-sd")).unwrap();
    assert_eq!(backend.name(), "sd");
    // A model that matches nothing leaves it to the default backend.
    let backend = router.route(&registry, &mut balancer, None, Some("imagen")).unwrap();
    assert_eq!(backend.name(), "flux");
}

#[test]
fn default_backend_that_is_not_registered_is_passed_over() {
    let mut registry = BackendRegistry::new();
    registry.add_backend(create_test_config("only", "http", 1), &no_env()).unwrap();
    let mut balancer = LoadBalancer::new();
    let router = GatewayRouter::with_config(RouterConfig {
        default_backend: Some("missing".to_string()),
        fallback_enabled: true,
    });

    let backend = router.route(&registry, &mut balancer, None, None).unwrap();
    assert_eq!(backend.name(), "only");
}
