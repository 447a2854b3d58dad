use gen_serving_gateway::backend::registry::BackendRegistry;
use gen_serving_gateway::backend::adapter::{GenerateResponse, UpstreamReply};
use gen_serving_gateway::config::{BackendConfig, ProtocolType};
use gen_serving_gateway::error::ErrorKind;
use gen_serving_gateway::gateway::load_balancer::{LoadBalancer, LoadBalancingStrategy};
use gen_serving_gateway::gateway::router::{Router, RouterConfig};
use gen_serving_gateway::queue::request_queue::RequestQueue;

fn config(name: &str, endpoints: &[&str]) -> BackendConfig {
    BackendConfig {
        name: name.to_string(),
        protocol: ProtocolType::Http,
        endpoints: endpoints.iter().map(|e| e.to_string()).collect(),
        ..Default::default()
    }
}

fn no_env() -> Vec<(String, String)> {
    Vec::new()
}

fn unreachable() -> UpstreamReply<GenerateResponse> {
    UpstreamReply::Unreachable("connection refused".to_string())
}

fn generated() -> UpstreamReply<GenerateResponse> {
    UpstreamReply::Answered {
        status: 200,
        status_line: "200 OK".to_string(),
        parsed: Ok(GenerateResponse { images: Vec::new() }),
        body: String::new(),
    }
}

#[test]
fn a_request_is_admitted_to_the_named_backend() {
    let mut registry = BackendRegistry::new();
    registry.add_backend(config("a", &["http://a/"]), &no_env()).unwrap();
    registry.add_backend(config("b", &["http://b"]), &no_env()).unwrap();
    let mut balancer = LoadBalancer::new();
    let queue = RequestQueue::new();

    let dispatch = queue.submit(&mut registry, &mut balancer, Some("b"), None).unwrap();
    assert_eq!(dispatch.backend, "b");
    assert_eq!(dispatch.request.endpoint, "http://b");
    assert_eq!(dispatch.request.url, "http://b/images/generations");
    assert_eq!(dispatch.request.timeout_ms, 60000);

    let response = queue.complete(&mut registry, &mut balancer, &dispatch, generated()).unwrap();
    assert!(response.images.is_empty());
}

#[test]
fn requests_without_a_name_go_round() {
    let mut registry = BackendRegistry::new();
    for name in ["a", "b", "c"] {
        registry.add_backend(config(name, &["http://x"]), &no_env()).unwrap();
    }
    let mut balancer = LoadBalancer::new();
    let queue = RequestQueue::default();

    let picked: Vec<String> = (0..6)
        .map(|_| queue.submit(&mut registry, &mut balancer, None, None).unwrap().backend)
        .collect();
    assert_eq!(picked, vec!["a", "b", "c", "a", "b", "c"]);
}

#[test]
fn the_error_of_the_backend_comes_back_unchanged() {
    let mut registry = BackendRegistry::new();
    registry.add_backend(config("a", &["http://a"]), &no_env()).unwrap();
    let mut balancer = LoadBalancer::new();
    let queue = RequestQueue::new();

    let dispatch = queue.submit(&mut registry, &mut balancer, None, None).unwrap();
    let error = queue.complete(&mut registry, &mut balancer, &dispatch, unreachable()).unwrap_err();
    assert_eq!(error.kind(), ErrorKind::HttpClient);
    assert_eq!(error.message(), "connection refused");
}

#[test]
fn the_fourth_dispatch_goes_to_the_other_endpoint() {
    let mut registry = BackendRegistry::new();
    registry.add_backend(config("img", &["http://A", "http://B"]), &no_env()).unwrap();
    let mut balancer = LoadBalancer::new();
    let queue = RequestQueue::new();

    // Three transport failures in a row on A.
    let mut failed = 0;
    while failed < 3 {
        let dispatch = queue.submit(&mut registry, &mut balancer, None, None).unwrap();
        if dispatch.request.endpoint == "http://A" {
            assert!(queue.complete(&mut registry, &mut balancer, &dispatch, unreachable()).is_err());
            failed += 1;
        } else {
            assert!(queue.complete(&mut registry, &mut balancer, &dispatch, generated()).is_ok());
        }
    }

    for _ in 0..4 {
        let dispatch = queue.submit(&mut registry, &mut balancer, None, None).unwrap();
        assert_eq!(dispatch.request.endpoint, "http://B");
    }
    let listed = registry.list_backends();
    assert_eq!(listed.len(), 1);
    assert!(listed[0].healthy);
}

#[test]
fn a_backend_without_healthy_endpoint_refuses_by_name() {
    let mut registry = BackendRegistry::new();
    registry.add_backend(config("a", &["http://a"]), &no_env()).unwrap();
    let mut balancer = LoadBalancer::new();
    let queue = RequestQueue::new();
    for _ in 0..3 {
        let dispatch = queue.submit(&mut registry, &mut balancer, Some("a"), None).unwrap();
        let _ = queue.complete(&mut registry, &mut balancer, &dispatch, unreachable());
    }

    // Asked for by name, the backend is chosen and has no endpoint to offer.
    let error = queue.submit(&mut registry, &mut balancer, Some("a"), None).unwrap_err();
    assert_eq!(error.kind(), ErrorKind::NoHealthyBackends);
    assert_eq!(error.message(), "a");
    // Without a name, no backend is healthy.
    let error = queue.submit(&mut registry, &mut balancer, None, None).unwrap_err();
    assert_eq!(error.kind(), ErrorKind::NoHealthyBackends);
    assert_eq!(error.message(), "No healthy backends available");
}

#[test]
fn dispatches_around_a_removal_never_reach_another_backend() {
    let mut registry = BackendRegistry::new();
    registry.add_backend(config("other", &["http://other"]), &no_env()).unwrap();
    registry.add_backend(config("x", &["http://x"]), &no_env()).unwrap();
    let mut balancer = LoadBalancer::new();
    let queue = RequestQueue::with_router(Router::with_config(RouterConfig {
        default_backend: None,
        fallback_enabled: false,
    }));

    let mut in_flight = Vec::new();
    for i in 0..100 {
        if i == 40 {
            registry.remove_backend("x").unwrap();
        }
        match queue.submit(&mut registry, &mut balancer, Some("x"), None) {
            Ok(dispatch) => {
                assert!(i < 40);
                assert_eq!(dispatch.backend, "x");
                assert_eq!(dispatch.request.endpoint, "http://x");
                in_flight.push(dispatch);
            },
            Err(error) => {
                assert!(i >= 40);
                assert!(matches!(
                    error.kind(),
                    ErrorKind::BackendNotFound | ErrorKind::NoHealthyBackends
                ));
            },
        }
    }
    assert_eq!(in_flight.len(), 40);
    // Replies that come in after the removal still end their requests.
    for dispatch in &in_flight {
        assert!(queue.complete(&mut registry, &mut balancer, dispatch, generated()).is_ok());
    }
    assert!(registry.get("other").unwrap().is_healthy());
}

#[test]
fn least_connections_counts_what_is_in_flight() {
    let mut registry = BackendRegistry::new();
    registry.add_backend(config("a", &["http://a"]), &no_env()).unwrap();
    registry.add_backend(config("b", &["http://b"]), &no_env()).unwrap();
    let mut balancer = LoadBalancer::new();
    balancer.set_strategy(LoadBalancingStrategy::LeastConnections);
    let queue = RequestQueue::new();

    let first = queue.submit(&mut registry, &mut balancer, None, None).unwrap();
    let second = queue.submit(&mut registry, &mut balancer, None, None).unwrap();
    assert_eq!((first.backend.as_str(), second.backend.as_str()), ("a", "b"));
    queue.complete(&mut registry, &mut balancer, &second, generated()).unwrap();
    let third = queue.submit(&mut registry, &mut balancer, None, None).unwrap();
    assert_eq!(third.backend, "b");
    assert_eq!(balancer.outstanding("a"), 1);
    assert_eq!(balancer.outstanding("b"), 1);
}

#[test]
fn dispatches_follow_the_weights() {
    let mut registry = BackendRegistry::new();
    let mut sd = config("sd", &["http://sd-1", "http://sd-2"]);
    sd.weight = 1;
    let mut dalle = config("dalle", &["http://dalle"]);
    dalle.weight = 3;
    registry.add_backend(sd, &no_env()).unwrap();
    registry.add_backend(dalle, &no_env()).unwrap();
    let mut balancer = LoadBalancer::new();
    balancer.set_strategy(LoadBalancingStrategy::WeightedRoundRobin);
    let queue = RequestQueue::new();
    // The window begins wherever the counter stands.
    for _ in 0..3 {
        queue.submit(&mut registry, &mut balancer, None, None).unwrap();
    }

    let mut to_sd = 0;
    let mut to_dalle = 0;
    for _ in 0..16 {
        let dispatch = queue.submit(&mut registry, &mut balancer, None, None).unwrap();
        match dispatch.backend.as_str() {
            "sd" => to_sd += 1,
            "dalle" => to_dalle += 1,
            other => panic!("dispatched to {}", other),
        }
        assert!(queue.complete(&mut registry, &mut balancer, &dispatch, generated()).is_ok());
    }

    assert_eq!((to_sd, to_dalle), (4, 12));
}
