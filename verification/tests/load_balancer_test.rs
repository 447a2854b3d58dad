use gen_serving_gateway::backend::registry::BackendRegistry;
use gen_serving_gateway::backend::adapter::Operation;
use gen_serving_gateway::config::{BackendConfig, ProtocolType};
use gen_serving_gateway::error::ErrorKind;
use gen_serving_gateway::gateway::load_balancer::{LoadBalancer, LoadBalancingStrategy};

fn create_test_config(name: &str, weight: u32) -> BackendConfig {
    BackendConfig {
        name: name.to_string(),
        protocol: ProtocolType::Http,
        endpoints: vec![format!("http://localhost:{}", 8001 + weight as u16)],
        health_check_path: "/health".to_string(),
        health_check_interval_secs: 30,
        timeout_ms: 60000,
        weight,
        enabled: true,
        ..Default::default()
    }
}

fn no_env() -> Vec<(String, String)> {
    Vec::new()
}

#[test]
fn test_load_balancer_creation() {
    let lb = LoadBalancer::new();

    assert_eq!(lb.strategy(), LoadBalancingStrategy::RoundRobin);
}

#[test]
fn test_load_balancer_set_strategy() {
    let mut lb = LoadBalancer::new();

    lb.set_strategy(LoadBalancingStrategy::WeightedRoundRobin);
    assert_eq!(lb.strategy(), LoadBalancingStrategy::WeightedRoundRobin);

    lb.set_strategy(LoadBalancingStrategy::Random);
    assert_eq!(lb.strategy(), LoadBalancingStrategy::Random);
}

#[test]
fn test_load_balancer_no_backends() {
    let registry = BackendRegistry::new();
    let mut lb = LoadBalancer::new();

    let result = lb.select_backend(&registry, None);
    assert!(result.is_err());
}

#[test]
fn test_load_balancer_specific_backend() {
    let mut registry = BackendRegistry::new();

    let config = create_test_config("test-backend", 1);
    registry.add_backend(config, &no_env()).unwrap();

    let mut lb = LoadBalancer::new();

    let result = lb.select_backend(&registry, Some("test-backend"));
    assert!(result.is_ok());
    assert_eq!(result.unwrap().name(), "test-backend");
}

#[test]
fn test_load_balancer_nonexistent_backend() {
    let registry = BackendRegistry::new();
    let mut lb = LoadBalancer::new();

    let result = lb.select_backend(&registry, Some("nonexistent"));
    assert!(result.is_err());
}

#[test]
fn test_round_robin_distribution() {
    let mut registry = BackendRegistry::new();

    // Add multiple backends
    for i in 1..=3 {
        let config = create_test_config(&format!("backend-{}", i), 1);
        registry.add_backend(config, &no_env()).unwrap();
    }

    let mut lb = LoadBalancer::new();
    lb.set_strategy(LoadBalancingStrategy::RoundRobin);

    // Track selections
    let mut selections = std::collections::HashMap::new();

    for _ in 0..30 {
        let backend = lb.select_backend(&registry, None).unwrap();
        *selections.entry(backend.name().to_string()).or_insert(0) += 1;
    }

    // Each backend should be selected roughly equally
    for (_, count) in &selections {
        assert!(*count >= 8 && *count <= 12, "Expected roughly equal distribution");
    }
}

#[test]
fn empty_registry_fails_under_every_strategy() {
    let registry = BackendRegistry::new();
    for strategy in [
        LoadBalancingStrategy::RoundRobin,
        LoadBalancingStrategy::WeightedRoundRobin,
        LoadBalancingStrategy::Random,
        LoadBalancingStrategy::LeastConnections,
    ] {
        let mut lb = LoadBalancer::new();
        lb.set_strategy(strategy);
        let error = lb.select_backend(&registry, None).err().unwrap();
        assert_eq!(error.kind(), ErrorKind::NoHealthyBackends);
        assert_eq!(error.message(), "No healthy backends available");
        assert_eq!(error.status_code(), 503);
    }
}

#[test]
fn nonexistent_backend_is_not_found() {
    let registry = BackendRegistry::new();
    let mut lb = LoadBalancer::new();
    let error = lb.select_backend(&registry, Some("nonexistent")).err().unwrap();
    assert_eq!(error.kind(), ErrorKind::BackendNotFound);
    assert_eq!(error.message(), "nonexistent");
}

#[test]
fn round_robin_window_holds_each_backend_equally_often() {
    let mut registry = BackendRegistry::new();
    for name in ["a", "b", "c", "d"] {
        registry.add_backend(create_test_config(name, 1), &no_env()).unwrap();
    }
    let mut lb = LoadBalancer::new();
    // Move the counter off its start, so that the window begins anywhere.
    for _ in 0..3 {
        lb.select_backend(&registry, None).unwrap();
    }

    let mut picked: Vec<String> = Vec::new();
    for _ in 0..12 {
        picked.push(lb.select_backend(&registry, None).unwrap().name().to_string());
    }

    for name in ["a", "b", "c", "d"] {
        assert_eq!(picked.iter().filter(|p| p.as_str() == name).count(), 3);
    }
    assert_eq!(&picked[0..4], &["d", "a", "b", "c"]);
}

#[test]
fn weighted_round_robin_follows_the_weights() {
    let mut registry = BackendRegistry::new();
    registry.add_backend(create_test_config("sd", 1), &no_env()).unwrap();
    registry.add_backend(create_test_config("dalle", 3), &no_env()).unwrap();
    let mut lb = LoadBalancer::new();
    lb.set_strategy(LoadBalancingStrategy::WeightedRoundRobin);

    let mut picked: Vec<String> = Vec::new();
    for _ in 0..16 {
        picked.push(lb.select_backend(&registry, None).unwrap().name().to_string());
    }

    assert_eq!(picked.iter().filter(|p| p.as_str() == "sd").count(), 4);
    assert_eq!(picked.iter().filter(|p| p.as_str() == "dalle").count(), 12);
    assert_eq!(&picked[0..5], &["sd", "dalle", "dalle", "dalle", "sd"]);
}

#[test]
fn weighted_round_robin_without_weight_finds_no_backend() {
    let mut registry = BackendRegistry::new();
    registry.add_backend(create_test_config("zero", 0), &no_env()).unwrap();
    let mut lb = LoadBalancer::new();
    lb.set_strategy(LoadBalancingStrategy::WeightedRoundRobin);

    let error = lb.select_backend(&registry, None).err().unwrap();
    assert_eq!(error.kind(), ErrorKind::NoHealthyBackends);
}

#[test]
fn random_picks_a_registered_backend() {
    let mut registry = BackendRegistry::new();
    for name in ["a", "b", "c"] {
        registry.add_backend(create_test_config(name, 1), &no_env()).unwrap();
    }
    let mut lb = LoadBalancer::new();
    lb.set_strategy(LoadBalancingStrategy::Random);

    let mut seen = std::collections::HashSet::new();
    for _ in 0..200 {
        let name = lb.select_backend(&registry, None).unwrap().name().to_string();
        assert!(["a", "b", "c"].contains(&name.as_str()));
        seen.insert(name);
    }
    assert_eq!(seen.len(), 3);
}

#[test]
fn pick_with_a_given_draw_is_exact() {
    let mut registry = BackendRegistry::new();
    for name in ["a", "b", "c"] {
        registry.add_backend(create_test_config(name, 1), &no_env()).unwrap();
    }
    let healthy = registry.get_healthy();
    let mut lb = LoadBalancer::new();
    lb.set_strategy(LoadBalancingStrategy::Random);

    assert_eq!(lb.pick(&healthy, 0), Some(0));
    assert_eq!(lb.pick(&healthy, 2), Some(2));
    assert_eq!(lb.pick(&healthy, 7), Some(1));
    assert_eq!(lb.pick(&Vec::new(), 7), None);
}

#[test]
fn least_connections_prefers_the_idle_backend() {
    let mut registry = BackendRegistry::new();
    for name in ["a", "b"] {
        registry.add_backend(create_test_config(name, 1), &no_env()).unwrap();
    }
    let mut lb = LoadBalancer::new();
    lb.set_strategy(LoadBalancingStrategy::LeastConnections);

    let first = lb.select_backend(&registry, None).unwrap().name().to_string();
    let second = lb.select_backend(&registry, None).unwrap().name().to_string();
    assert_eq!(first, "a");
    assert_eq!(second, "b");
    assert_eq!(lb.outstanding("a"), 1);
    assert_eq!(lb.outstanding("b"), 1);

    lb.release("b");
    assert_eq!(lb.outstanding("b"), 0);
    let third = lb.select_backend(&registry, None).unwrap().name().to_string();
    assert_eq!(third, "b");
    assert_eq!(lb.outstanding("b"), 1);

    lb.release("unknown");
    lb.release("a");
    lb.release("a");
    assert_eq!(lb.outstanding("a"), 0);
}

#[test]
fn unhealthy_and_disabled_backends_are_passed_over() {
    let mut registry = BackendRegistry::new();
    registry.add_backend(create_test_config("a", 1), &no_env()).unwrap();
    let mut off = create_test_config("off", 1);
    off.enabled = false;
    registry.add_backend(off, &no_env()).unwrap();
    registry.add_backend(create_test_config("down", 1), &no_env()).unwrap();
    let endpoint = registry.get("down").unwrap().endpoints()[0].clone();
    for _ in 0..3 {
        let request = registry.begin("down", Operation::ImageGeneration);
        if request.is_ok() {
            let _: Result<(), _> = registry.complete(
                "down",
                &endpoint,
                gen_serving_gateway::backend::adapter::UpstreamReply::Unreachable("refused".to_string()),
            );
        }
    }
    let mut lb = LoadBalancer::new();

    for _ in 0..5 {
        assert_eq!(lb.select_backend(&registry, None).unwrap().name(), "a");
    }
    // A backend that is asked for by name is handed out whatever its state.
    assert_eq!(lb.select_backend(&registry, Some("off")).unwrap().name(), "off");
    assert_eq!(lb.select_backend(&registry, Some("down")).unwrap().name(), "down");
}
