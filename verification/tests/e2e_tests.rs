use gen_serving_gateway::api::models::GenerateImageRequest;
use gen_serving_gateway::config::{BackendConfig, ProtocolType, Settings};
use gen_serving_gateway::AppState;

fn create_test_settings() -> Settings {
    let mut settings = Settings::default();
    settings.auth.enabled = false;
    settings.rate_limit.enabled = false;
    settings
}

fn create_test_backend_config(name: &str, port: u16) -> BackendConfig {
    BackendConfig {
        name: name.to_string(),
        protocol: ProtocolType::Http,
        endpoints: vec![format!("http://localhost:{}", port)],
        health_check_path: "/health".to_string(),
        health_check_interval_secs: 30,
        timeout_ms: 60000,
        weight: 1,
        enabled: true,
        ..Default::default()
    }
}

fn create_test_app_state() -> AppState {
    AppState::new(create_test_settings())
}

fn no_env() -> Vec<(String, String)> {
    Vec::new()
}

#[test]
fn test_app_state_creation() {
    let state = create_test_app_state();

    assert!(state.backend_registry.is_empty());

    assert!(!state.settings.auth.enabled);
}

#[test]
fn test_backend_registration_via_state() {
    let mut state = create_test_app_state();

    let config = create_test_backend_config("test-backend", 8001);
    state.backend_registry.add_backend(config, &no_env()).unwrap();

    assert!(!state.backend_registry.is_empty());
    assert!(state.backend_registry.contains("test-backend"));
}

#[test]
fn test_load_balancer_with_registered_backends() {
    let mut state = create_test_app_state();

    // Register multiple backends
    for i in 1..=3 {
        let config = create_test_backend_config(&format!("backend-{}", i), 8001 + i);
        state.backend_registry.add_backend(config, &no_env()).unwrap();
    }

    // Load balancer should be able to select backends
    let backend = state.load_balancer.select_backend(&state.backend_registry, None);
    assert!(backend.is_ok());
}

#[test]
fn test_health_summary_integration() {
    let mut state = create_test_app_state();

    // Add backends
    for i in 1..=2 {
        let config = create_test_backend_config(&format!("backend-{}", i), 8001 + i);
        state.backend_registry.add_backend(config, &no_env()).unwrap();
    }

    let (total, _healthy, _unhealthy) =
        state.health_manager.get_health_summary(&state.backend_registry);
    assert_eq!(total, 2);
}

#[test]
fn test_generate_request_parsing() {
    let request = GenerateImageRequest {
        prompt: "A beautiful sunset".to_string(),
        model: None,
        n: 2,
        size: "512x768".to_string(),
        response_format: "b64_json".to_string(),
        negative_prompt: Some("blurry".to_string()),
        seed: Some(42),
        guidance_scale: Some(7.5f32.to_bits()),
        num_inference_steps: Some(50),
        backend: None,
    };

    let (width, height) = request.parse_size();
    assert_eq!(width, 512);
    assert_eq!(height, 768);
}

#[test]
fn test_generate_request_default_size() {
    let request = GenerateImageRequest {
        prompt: "Test".to_string(),
        model: None,
        n: 1,
        size: "invalid".to_string(),
        response_format: "url".to_string(),
        negative_prompt: None,
        seed: None,
        guidance_scale: None,
        num_inference_steps: None,
        backend: None,
    };

    let (width, height) = request.parse_size();
    // Should fall back to default 1024x1024
    assert_eq!(width, 1024);
    assert_eq!(height, 1024);
}

#[test]
fn test_settings_reload() {
    let mut state = create_test_app_state();

    // Modify settings
    state.settings.rate_limit.requests_per_second = 500;

    // Verify change persists
    assert_eq!(state.settings.rate_limit.requests_per_second, 500);
}

#[test]
fn test_backend_dynamic_management() {
    let mut state = create_test_app_state();

    // Add a backend
    let config = create_test_backend_config("dynamic-backend", 8001);
    state.backend_registry.add_backend(config, &no_env()).unwrap();
    assert_eq!(state.backend_registry.len(), 1);

    // Remove it
    state.backend_registry.remove_backend("dynamic-backend").unwrap();
    assert_eq!(state.backend_registry.len(), 0);
}
