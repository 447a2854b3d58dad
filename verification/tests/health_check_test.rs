use gen_serving_gateway::backend::registry::BackendRegistry;
use gen_serving_gateway::backend::adapter::ProbeReply;
use gen_serving_gateway::config::{BackendConfig, ProtocolType};
use gen_serving_gateway::gateway::health_check::{HealthCheckManager, ProbeRound};

fn create_test_config(name: &str) -> BackendConfig {
    BackendConfig {
        name: name.to_string(),
        protocol: ProtocolType::Http,
        endpoints: vec!["http://localhost:8001".to_string()],
        health_check_path: "/health".to_string(),
        health_check_interval_secs: 30,
        timeout_ms: 60000,
        weight: 1,
        enabled: true,
        ..Default::default()
    }
}

fn no_env() -> Vec<(String, String)> {
    Vec::new()
}

fn round(backend: &str, reply: ProbeReply) -> ProbeRound {
    ProbeRound {
        backend: backend.to_string(),
        replies: vec![("http://localhost:8001".to_string(), reply)],
    }
}

#[test]
fn test_health_manager_creation() {
    let health_manager = HealthCheckManager::new();

    // Initially, all backends should be considered healthy (no data yet)
    assert!(health_manager.is_healthy("nonexistent"));
}

#[test]
fn test_health_summary_empty() {
    let registry = BackendRegistry::new();
    let health_manager = HealthCheckManager::new();

    let (total, healthy, unhealthy) = health_manager.get_health_summary(&registry);

    assert_eq!(total, 0);
    assert_eq!(healthy, 0);
    assert_eq!(unhealthy, 0);
}

#[test]
fn test_health_summary_with_backends() {
    let mut registry = BackendRegistry::new();

    // Add some backends
    for i in 1..=3 {
        let config = create_test_config(&format!("backend-{}", i));
        registry.add_backend(config, &no_env()).unwrap();
    }

    let health_manager = HealthCheckManager::new();
    let (total, _healthy, _unhealthy) = health_manager.get_health_summary(&registry);

    assert_eq!(total, 3);
}

#[test]
fn test_get_unhealthy_backends() {
    let health_manager = HealthCheckManager::new();

    let unhealthy = health_manager.get_unhealthy_backends();
    assert!(unhealthy.is_empty());
}

#[test]
fn test_health_status_tracking() {
    let mut registry = BackendRegistry::new();
    let config = create_test_config("test-backend");
    registry.add_backend(config, &no_env()).unwrap();

    let health_manager = HealthCheckManager::new();

    // Backend should be assumed healthy initially
    assert!(health_manager.is_healthy("test-backend"));

    // After explicit check, status should be updated
    let status = health_manager.get_status("test-backend");
    // Status may not exist if no check has been performed
    assert!(status.is_none() || status.is_some());
}

#[test]
fn backends_without_record_count_as_healthy() {
    let mut registry = BackendRegistry::new();
    for i in 1..=3 {
        registry.add_backend(create_test_config(&format!("backend-{}", i)), &no_env()).unwrap();
    }
    let health_manager = HealthCheckManager::new();

    assert_eq!(health_manager.get_health_summary(&registry), (3, 3, 0));
    assert!(health_manager.get_status("backend-1").is_none());
}

#[test]
fn two_cycles_without_upstream_leave_both_backends_unhealthy() {
    let mut registry = BackendRegistry::new();
    registry.add_backend(create_test_config("a"), &no_env()).unwrap();
    registry.add_backend(create_test_config("b"), &no_env()).unwrap();
    let mut manager = HealthCheckManager::new();

    for _ in 0..2 {
        let rounds = vec![round("a", ProbeReply::Unreachable), round("b", ProbeReply::Unreachable)];
        manager.run_cycle(&mut registry, &rounds);
    }

    assert_eq!(manager.get_health_summary(&registry), (2, 0, 2));
    assert_eq!(manager.get_unhealthy_backends(), vec!["a".to_string(), "b".to_string()]);
    assert!(!manager.is_healthy("a"));
    let record = manager.get_status("a").unwrap();
    assert!(!record.is_healthy);
    assert_eq!(record.consecutive_failures, 2);
    assert_eq!(record.last_error_message.as_deref(), Some("Health check failed"));
}

#[test]
fn a_pass_clears_the_record() {
    let mut registry = BackendRegistry::new();
    registry.add_backend(create_test_config("a"), &no_env()).unwrap();
    let mut manager = HealthCheckManager::new();

    manager.run_cycle(&mut registry, &vec![round("a", ProbeReply::Status(503))]);
    assert!(!manager.is_healthy("a"));
    manager.run_cycle(&mut registry, &vec![round("a", ProbeReply::Status(200))]);

    assert!(manager.is_healthy("a"));
    let record = manager.get_status("a").unwrap();
    assert_eq!(record.consecutive_failures, 0);
    assert!(record.last_error_message.is_none());
    assert!(manager.get_unhealthy_backends().is_empty());
    assert_eq!(manager.get_health_summary(&registry), (1, 1, 0));
}

#[test]
fn a_round_of_a_removed_backend_is_passed_over() {
    let mut registry = BackendRegistry::new();
    registry.add_backend(create_test_config("a"), &no_env()).unwrap();
    let mut manager = HealthCheckManager::new();

    manager.run_cycle(
        &mut registry,
        &vec![round("gone", ProbeReply::Unreachable), round("a", ProbeReply::Status(401))],
    );

    assert!(manager.get_status("gone").is_none());
    assert!(manager.get_status("a").unwrap().is_healthy);
}

#[test]
fn the_plan_probes_every_endpoint() {
    let mut registry = BackendRegistry::new();
    let mut config = create_test_config("a");
    config.endpoints = vec!["http://one:1/".to_string(), "http://two:2".to_string()];
    config.health_check_path = "/healthz".to_string();
    registry.add_backend(config, &no_env()).unwrap();

    let plans = HealthCheckManager::plan(&registry);

    assert_eq!(plans.len(), 1);
    assert_eq!(plans[0].backend, "a");
    let urls: Vec<&str> = plans[0].requests.iter().map(|r| r.url.as_str()).collect();
    assert_eq!(urls, vec!["http://one:1/healthz", "http://two:2/healthz"]);
    assert_eq!(plans[0].requests[0].endpoint, "http://one:1/");
    assert_eq!(plans[0].requests[0].timeout_ms, 60000);
}

#[test]
fn probe_interval_is_the_least_and_at_least_one() {
    let with_interval = |secs: u64| {
        let mut config = create_test_config("x");
        config.health_check.interval_secs = secs;
        config
    };

    assert_eq!(HealthCheckManager::probe_interval(&vec![]), 30);
    assert_eq!(
        HealthCheckManager::probe_interval(&vec![with_interval(20), with_interval(5), with_interval(9)]),
        5
    );
    assert_eq!(HealthCheckManager::probe_interval(&vec![with_interval(0), with_interval(5)]), 1);
    assert_eq!(HealthCheckManager::probe_interval(&vec![with_interval(45)]), 45);
}

#[test]
fn the_probe_limit_falls_back_to_the_request_timeout() {
    let mut registry = BackendRegistry::new();
    let mut config = create_test_config("a");
    config.timeout_ms = 2500;
    registry.add_backend(config, &no_env()).unwrap();
    let mut timed = create_test_config("b");
    timed.health_check.timeout_secs = 5;
    registry.add_backend(timed, &no_env()).unwrap();
    let mut endless = create_test_config("c");
    endless.health_check.timeout_secs = u64::MAX;
    registry.add_backend(endless, &no_env()).unwrap();

    let plans = HealthCheckManager::plan(&registry);

    assert_eq!(plans[0].timeout_secs, 0);
    assert_eq!(plans[0].limit_ms(&plans[0].requests[0]), 2500);
    assert_eq!(plans[1].timeout_secs, 5);
    assert_eq!(plans[1].limit_ms(&plans[1].requests[0]), 5000);
    assert_eq!(plans[2].limit_ms(&plans[2].requests[0]), u64::MAX);
}
