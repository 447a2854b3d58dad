use gen_serving_gateway::api::handlers::{
    add_backend, backend_request, generate_image, health_check, list_backends, metrics,
    parse_backend_type, parse_protocol, remove_backend, requested_config, VERSION,
};
use gen_serving_gateway::api::models::{AddBackendRequest, GenerateImageRequest};
use gen_serving_gateway::api::text_handlers::{
    chat_completion, chat_request, list_models, list_text_backends, text_completion, text_request,
    ApiChatCompletionRequest, ApiTextCompletionRequest,
};
use gen_serving_gateway::backend::registry::BackendRegistry;
use gen_serving_gateway::backend::adapter::{GenerateResponse, GeneratedImage, ProbeReply};
use gen_serving_gateway::backend::{ChatMessage, TextBackendRegistry};
use gen_serving_gateway::config::{BackendConfig, BackendType, ProtocolType};
use gen_serving_gateway::error::ErrorKind;
use gen_serving_gateway::gateway::health_check::{HealthCheckManager, ProbeRound};

fn add_request(name: &str, protocol: &str) -> AddBackendRequest {
    AddBackendRequest {
        name: name.to_string(),
        protocol: protocol.to_string(),
        endpoints: vec![format!("http://{}:7860", name)],
        health_check_path: "/ping".to_string(),
        health_check_interval_secs: 15,
        timeout_ms: 5000,
        weight: 2,
        backend_type: "image".to_string(),
    }
}

fn image_request(n: u32) -> GenerateImageRequest {
    GenerateImageRequest {
        prompt: "a cat".to_string(),
        model: Some("sd-xl".to_string()),
        n,
        size: "640x480".to_string(),
        response_format: "b64_json".to_string(),
        negative_prompt: Some("blurry".to_string()),
        seed: Some(-3),
        guidance_scale: Some(7.5f32.to_bits()),
        num_inference_steps: Some(30),
        backend: Some("sd".to_string()),
    }
}

fn text_config(name: &str, models: &[&str]) -> BackendConfig {
    BackendConfig {
        name: name.to_string(),
        backend_type: BackendType::Text,
        protocol: ProtocolType::OpenAI,
        endpoints: vec![format!("http://{}:8000", name)],
        models: models.iter().map(|m| m.to_string()).collect(),
        ..Default::default()
    }
}

#[test]
fn protocol_and_type_names() {
    assert_eq!(parse_protocol("http"), ProtocolType::Http);
    assert_eq!(parse_protocol("grpc"), ProtocolType::Grpc);
    assert_eq!(parse_protocol("openai"), ProtocolType::OpenAI);
    assert_eq!(parse_protocol("anthropic"), ProtocolType::Anthropic);
    assert_eq!(parse_protocol("tgi"), ProtocolType::Tgi);
    assert_eq!(parse_protocol("websocket"), ProtocolType::Http);
    assert_eq!(parse_protocol("GRPC"), ProtocolType::Http);
    assert_eq!(parse_backend_type("text"), BackendType::Text);
    assert_eq!(parse_backend_type("image"), BackendType::Image);
    assert_eq!(parse_backend_type("multi"), BackendType::Multi);
    assert_eq!(parse_backend_type("audio"), BackendType::Image);
}

#[test]
fn requested_config_reads_names_in_any_case() {
    let mut request = add_request("x", "GrPc");
    request.backend_type = "TEXT".to_string();
    let config = requested_config(request);
    assert_eq!(config.protocol, ProtocolType::Grpc);
    assert_eq!(config.backend_type, BackendType::Text);
    assert_eq!(config.name, "x");
    assert!(config.enabled);
    assert_eq!(config.health_check.path, "/ping");
    assert_eq!(config.health_check.interval_secs, 15);
    assert_eq!(config.health_check.timeout_secs, 0);
    assert_eq!(config.health_check_path, "/ping");
    assert_eq!(config.load_balancer.weight, 2);
    assert_eq!(config.weight, 2);
    assert_eq!(config.timeout_ms, 5000);
    assert!(config.models.is_empty());

    let config = requested_config(add_request("y", "websocket"));
    assert_eq!(config.protocol, ProtocolType::Http);
    assert_eq!(config.backend_type, BackendType::Image);
}

#[test]
fn add_backend_registers_and_says_so() {
    let mut registry = BackendRegistry::new();
    let response = add_backend(&mut registry, add_request("x", "OpenAI")).unwrap();
    assert!(response.success);
    assert_eq!(response.message, "Backend 'x' added successfully");

    let adapter = registry.get("x").unwrap();
    assert_eq!(adapter.protocol(), "openai");
    assert_eq!(adapter.weight(), 2);
    assert_eq!(adapter.timeout_ms(), 5000);
    assert_eq!(adapter.probe_requests()[0].url, "http://x:7860/ping");
    assert_eq!(adapter.get_headers().len(), 1);

    let error = add_backend(&mut registry, add_request("x", "http")).unwrap_err();
    assert_eq!(error.kind(), ErrorKind::InvalidRequest);
    assert_eq!(error.message(), "Backend 'x' already exists");

    let error = add_backend(&mut registry, add_request("y", "Anthropic")).unwrap_err();
    assert_eq!(error.kind(), ErrorKind::Config);
    assert_eq!(registry.len(), 1);
}

#[test]
fn remove_backend_says_so() {
    let mut registry = BackendRegistry::new();
    add_backend(&mut registry, add_request("x", "http")).unwrap();
    let response = remove_backend(&mut registry, "x").unwrap();
    assert!(response.success);
    assert_eq!(response.message, "Backend 'x' removed successfully");
    let error = remove_backend(&mut registry, "x").unwrap_err();
    assert_eq!(error.kind(), ErrorKind::BackendNotFound);
}

#[test]
fn list_backends_gives_the_backend_information() {
    let mut registry = BackendRegistry::new();
    add_backend(&mut registry, add_request("x", "http")).unwrap();
    add_backend(&mut registry, add_request("y", "grpc")).unwrap();

    let response = list_backends(&registry);

    assert_eq!(response.backends.len(), 2);
    assert_eq!(response.backends[0].name, "x");
    assert_eq!(response.backends[0].protocol, "http");
    assert_eq!(response.backends[0].endpoints, vec!["http://x:7860".to_string()]);
    assert!(response.backends[0].healthy);
    assert_eq!(response.backends[0].weight, 2);
    assert!(response.backends[0].enabled);
    assert_eq!(response.backends[1].protocol, "grpc");
}

#[test]
fn the_number_of_images_is_forwarded_unchanged() {
    for n in [0u32, 1, 10, u32::MAX] {
        let forwarded = backend_request(&image_request(n));
        assert_eq!(forwarded.n, n);
    }
    let forwarded = backend_request(&image_request(0));
    assert_eq!(forwarded.prompt, "a cat");
    assert_eq!(forwarded.negative_prompt.as_deref(), Some("blurry"));
    assert_eq!((forwarded.width, forwarded.height), (640, 480));
    assert_eq!(forwarded.model.as_deref(), Some("sd-xl"));
    assert_eq!(forwarded.seed, Some(-3));
    assert_eq!(forwarded.guidance_scale.map(f32::from_bits), Some(7.5));
    assert_eq!(forwarded.num_inference_steps, Some(30));
    assert_eq!(forwarded.response_format, "b64_json");
}

#[test]
fn generated_images_are_shown_in_order() {
    let response = GenerateResponse {
        images: vec![
            GeneratedImage { b64_json: Some("AAAA".to_string()), url: None, revised_prompt: None },
            GeneratedImage {
                b64_json: None,
                url: Some("http://files/1.png".to_string()),
                revised_prompt: Some("a big cat".to_string()),
            },
        ],
    };

    let shown = generate_image(response);

    assert_eq!(shown.data.len(), 2);
    assert_eq!(shown.data[0].b64_json.as_deref(), Some("AAAA"));
    assert!(shown.data[0].url.is_none());
    assert_eq!(shown.data[1].url.as_deref(), Some("http://files/1.png"));
    assert_eq!(shown.data[1].revised_prompt.as_deref(), Some("a big cat"));
    // Stamped with the clock: later than the first of January 2020.
    assert!(shown.created > 1_577_836_800);
}

#[test]
fn health_route_is_degraded_without_a_healthy_backend() {
    let mut registry = BackendRegistry::new();
    let mut manager = HealthCheckManager::new();
    let response = health_check(&manager, &registry);
    assert_eq!(response.status, "degraded");
    assert_eq!(response.version, VERSION);
    assert_eq!(response.version, "0.3.2");
    assert_eq!(response.backends.total, 0);

    add_backend(&mut registry, add_request("x", "http")).unwrap();
    let response = health_check(&manager, &registry);
    assert_eq!(response.status, "healthy");
    assert_eq!(
        (response.backends.total, response.backends.healthy, response.backends.unhealthy),
        (1, 1, 0)
    );

    let round = ProbeRound {
        backend: "x".to_string(),
        replies: vec![("http://x:7860".to_string(), ProbeReply::Unreachable)],
    };
    manager.run_cycle(&mut registry, &vec![round]);
    let response = health_check(&manager, &registry);
    assert_eq!(response.status, "degraded");
    assert_eq!(
        (response.backends.total, response.backends.healthy, response.backends.unhealthy),
        (1, 0, 1)
    );
}

#[test]
fn metrics_text() {
    let text = metrics();
    assert!(text.starts_with("# HELP img_serving_requests_total"));
    assert!(text.ends_with("img_serving_requests_total 0\n"));
    assert_eq!(text.lines().count(), 3);
}

#[test]
fn api_requests_lose_only_the_backend_hint() {
    let chat = ApiChatCompletionRequest {
        model: "gpt-4".to_string(),
        messages: vec![ChatMessage {
            role: "user".to_string(),
            content: "hi".to_string(),
            name: None,
        }],
        temperature: Some(0.5f32.to_bits()),
        top_p: None,
        max_tokens: Some(16),
        stream: Some(false),
        stop: Some(vec!["\n".to_string()]),
        presence_penalty: None,
        frequency_penalty: Some(1.0f32.to_bits()),
        user: Some("u".to_string()),
        backend: Some("b".to_string()),
    };
    let forwarded = chat_request(chat);
    assert_eq!(forwarded.model, "gpt-4");
    assert_eq!(forwarded.messages.len(), 1);
    assert_eq!(forwarded.messages[0].content, "hi");
    assert_eq!(forwarded.temperature.map(f32::from_bits), Some(0.5));
    assert_eq!(forwarded.max_tokens, Some(16));
    assert_eq!(forwarded.stop, Some(vec!["\n".to_string()]));
    assert_eq!(forwarded.user.as_deref(), Some("u"));

    let text = ApiTextCompletionRequest {
        model: "gpt-4".to_string(),
        prompt: "once".to_string(),
        max_tokens: None,
        temperature: None,
        top_p: Some(0.9f32.to_bits()),
        stop: None,
        stream: Some(true),
        backend: None,
    };
    let forwarded = text_request(text);
    assert_eq!(forwarded.prompt, "once");
    assert_eq!(forwarded.top_p.map(f32::from_bits), Some(0.9));
    assert_eq!(forwarded.stream, Some(true));
}

fn chat(model: &str, backend: Option<&str>) -> ApiChatCompletionRequest {
    ApiChatCompletionRequest {
        model: model.to_string(),
        messages: Vec::new(),
        temperature: None,
        top_p: None,
        max_tokens: None,
        stream: None,
        stop: None,
        presence_penalty: None,
        frequency_penalty: None,
        user: None,
        backend: backend.map(|b| b.to_string()),
    }
}

#[test]
fn chat_completion_goes_to_the_backend_of_the_model() {
    let mut registry = TextBackendRegistry::new();
    registry.add_backend(text_config("gpt-local", &["gpt-4", "gpt-3.5-turbo"]), &Vec::new()).unwrap();
    registry.add_backend(text_config("other", &["llama"]), &Vec::new()).unwrap();

    let dispatch = chat_completion(&mut registry, &chat("gpt-3.5-turbo", None)).unwrap();
    assert_eq!(dispatch.backend, "gpt-local");
    assert_eq!(dispatch.request.url, "http://gpt-local:8000/chat/completions");

    let dispatch = chat_completion(&mut registry, &chat("gpt-4", Some("other"))).unwrap();
    assert_eq!(dispatch.backend, "other");

    let request = ApiTextCompletionRequest {
        model: "llama".to_string(),
        prompt: "p".to_string(),
        max_tokens: None,
        temperature: None,
        top_p: None,
        stop: None,
        stream: None,
        backend: None,
    };
    let dispatch = text_completion(&mut registry, &request).unwrap();
    assert_eq!(dispatch.backend, "other");
    assert_eq!(dispatch.request.url, "http://other:8000/completions");
}

#[test]
fn chat_completion_without_backend_is_refused() {
    let mut registry = TextBackendRegistry::new();
    let error = chat_completion(&mut registry, &chat("opus-3", None)).unwrap_err();
    assert_eq!(error.kind(), ErrorKind::NoHealthyBackends);
    assert_eq!(error.message(), "no available backend for model 'opus-3'");
    assert_eq!(error.status_code(), 503);
}

#[test]
fn models_of_both_registries_are_listed() {
    let mut text = TextBackendRegistry::new();
    text.add_backend(text_config("a", &["m1", "m2"]), &Vec::new()).unwrap();
    text.add_backend(text_config("b", &[]), &Vec::new()).unwrap();
    text.add_backend(text_config("c", &["m3"]), &Vec::new()).unwrap();
    let mut image = BackendRegistry::new();
    add_backend(&mut image, add_request("sd", "http")).unwrap();

    let response = list_models(&text, &image);

    assert_eq!(response.object, "list");
    let listed: Vec<(&str, Option<&str>)> =
        response.data.iter().map(|m| (m.id.as_str(), m.owned_by.as_deref())).collect();
    assert_eq!(
        listed,
        vec![
            ("m1", Some("a")),
            ("m2", Some("a")),
            ("m3", Some("c")),
            ("image/sd", Some("sd")),
        ]
    );
    assert!(response.data.iter().all(|m| m.object == "model" && m.created.is_some()));
}

#[test]
fn text_backends_are_listed() {
    let mut text = TextBackendRegistry::new();
    let mut config = text_config("a", &["m1"]);
    config.capabilities = vec!["chat".to_string()];
    text.add_backend(config, &Vec::new()).unwrap();

    let response = list_text_backends(&text);

    assert_eq!(response.backends.len(), 1);
    let info = &response.backends[0];
    assert_eq!(info.name, "a");
    assert_eq!(info.protocol, "openai");
    assert_eq!(info.endpoints, vec!["http://a:8000".to_string()]);
    assert!(info.healthy);
    assert_eq!(info.models, vec!["m1".to_string()]);
    assert_eq!(info.capabilities, vec!["chat".to_string()]);
    assert!(info.enabled);
}
