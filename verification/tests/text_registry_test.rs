use gen_serving_gateway::backend::text_backend::{
    create_text_backend, AnthropicBackend, ModelsPlan, ModelsResponse, OpenAICompatibleBackend,
    TextBackend,
};
use gen_serving_gateway::backend::adapter::{Operation, ProbeReply, UpstreamReply};
use gen_serving_gateway::backend::TextBackendRegistry;
use gen_serving_gateway::config::{BackendConfig, BackendType, ProtocolType};
use gen_serving_gateway::error::ErrorKind;

fn text_config(name: &str, models: &[&str]) -> BackendConfig {
    BackendConfig {
        name: name.to_string(),
        backend_type: BackendType::Text,
        protocol: ProtocolType::OpenAI,
        endpoints: vec![format!("http://{}:8000/v1/", name)],
        models: models.iter().map(|m| m.to_string()).collect(),
        capabilities: vec!["chat".to_string()],
        ..Default::default()
    }
}

fn no_env() -> Vec<(String, String)> {
    Vec::new()
}

fn ids(response: &ModelsResponse) -> Vec<(String, Option<String>)> {
    response.data.iter().map(|m| (m.id.clone(), m.owned_by.clone())).collect()
}

#[test]
fn text_backend_is_made_by_protocol() {
    let mut config = text_config("t", &["m"]);
    for protocol in [ProtocolType::OpenAI, ProtocolType::Http, ProtocolType::Tgi] {
        config.protocol = protocol;
        let backend = create_text_backend(&config, &no_env()).unwrap();
        assert!(matches!(backend, TextBackend::OpenAI(_)));
        assert_eq!(backend.protocol(), protocol.as_str());
    }
    config.protocol = ProtocolType::Anthropic;
    let backend = create_text_backend(&config, &no_env()).unwrap();
    assert!(matches!(backend, TextBackend::Anthropic(_)));
    assert_eq!(backend.protocol(), "anthropic");
    assert_eq!(backend.status().protocol, "anthropic");

    config.protocol = ProtocolType::Grpc;
    let error = create_text_backend(&config, &no_env()).err().unwrap();
    assert_eq!(error.kind(), ErrorKind::Internal);
    assert_eq!(error.message(), "gRPC text backends not yet supported");
    assert_eq!(error.status_code(), 500);
}

#[test]
fn an_anthropic_backend_reports_anthropic_whatever_it_is_configured_with() {
    let config = text_config("ant-like", &["m"]);
    let backend = TextBackend::Anthropic(AnthropicBackend::new(&config, &no_env()).unwrap());
    assert_eq!(backend.protocol(), "anthropic");
    assert_eq!(backend.adapter().protocol(), "openai");
    let plain = OpenAICompatibleBackend::new(&config, &no_env()).unwrap();
    assert_eq!(plain.adapter().name(), "ant-like");
}

#[test]
fn text_backend_reports_its_status() {
    let backend = create_text_backend(&text_config("t", &["m1", "m2"]), &no_env()).unwrap();
    assert_eq!(backend.name(), "t");
    assert_eq!(backend.models(), vec!["m1".to_string(), "m2".to_string()]);
    assert_eq!(backend.capabilities(), vec!["chat".to_string()]);
    assert!(backend.is_enabled());
    assert!(backend.serves("m2"));
    let status = backend.status();
    assert_eq!(status.name, "t");
    assert_eq!(status.protocol, "openai");
    assert_eq!(status.endpoints, vec!["http://t:8000/v1/".to_string()]);
    assert!(status.healthy);
    assert_eq!(status.models.len(), 2);
    assert!(status.enabled);
}

#[test]
fn completions_go_to_the_trimmed_endpoint() {
    let mut backend = create_text_backend(&text_config("t", &["m"]), &no_env()).unwrap();
    assert_eq!(backend.chat_completion().unwrap().url, "http://t:8000/v1/chat/completions");
    assert_eq!(backend.text_completion().unwrap().url, "http://t:8000/v1/completions");
    assert_eq!(backend.begin(Operation::ChatCompletion).unwrap().endpoint, "http://t:8000/v1/");
    let reply: UpstreamReply<()> = UpstreamReply::Unreachable("down".to_string());
    assert_eq!(backend.complete("http://t:8000/v1/", reply).unwrap_err().kind(), ErrorKind::HttpClient);
}

#[test]
fn anthropic_lists_its_declared_models_without_asking() {
    let mut config = text_config("ant", &["opus-3", "opus-2"]);
    config.protocol = ProtocolType::Anthropic;
    let mut backend = create_text_backend(&config, &no_env()).unwrap();
    match backend.list_models().unwrap() {
        ModelsPlan::Known(response) => {
            assert_eq!(response.object, "list");
            assert_eq!(
                ids(&response),
                vec![
                    ("opus-3".to_string(), Some("anthropic".to_string())),
                    ("opus-2".to_string(), Some("anthropic".to_string())),
                ]
            );
            assert_eq!(response.data[0].object, "model");
            assert!(response.data[0].created.is_none());
        },
        ModelsPlan::Ask(_) => panic!("an Anthropic backend is not asked"),
    }
}

#[test]
fn openai_models_are_asked_for_and_made_up_where_the_answer_is_no_list() {
    let mut backend = create_text_backend(&text_config("t", &["m1"]), &no_env()).unwrap();
    let request = match backend.list_models().unwrap() {
        ModelsPlan::Ask(request) => request,
        ModelsPlan::Known(_) => panic!("an OpenAI backend is asked"),
    };
    assert_eq!(request.url, "http://t:8000/v1/models");

    let upstream = ModelsResponse::synthesized(&vec!["remote".to_string()], "upstream");
    let reply = UpstreamReply::Answered {
        status: 200,
        status_line: "200 OK".to_string(),
        parsed: Ok(upstream),
        body: String::new(),
    };
    let listed = backend.complete_list_models(&request.endpoint, reply).unwrap();
    assert_eq!(ids(&listed), vec![("remote".to_string(), Some("upstream".to_string()))]);

    for (status, parsed) in [(404u16, Err(String::new())), (200, Err("bad json".to_string()))] {
        let reply = UpstreamReply::Answered {
            status,
            status_line: status.to_string(),
            parsed,
            body: String::new(),
        };
        let listed = backend.complete_list_models(&request.endpoint, reply).unwrap();
        assert_eq!(ids(&listed), vec![("m1".to_string(), Some("t".to_string()))]);
    }

    let reply = UpstreamReply::Unreachable("down".to_string());
    let error = backend.complete_list_models(&request.endpoint, reply).unwrap_err();
    assert_eq!(error.kind(), ErrorKind::HttpClient);
}

#[test]
fn models_of_an_added_backend_resolve_to_it() {
    let mut registry = TextBackendRegistry::new();
    registry.add_backend(text_config("other", &["x"]), &no_env()).unwrap();
    registry.add_backend(text_config("n", &["m1", "m2"]), &no_env()).unwrap();

    assert_eq!(registry.get_backend_for_model("m1", None).unwrap().name(), "n");
    assert_eq!(registry.get_backend_for_model("m2", None).unwrap().name(), "n");
    assert_eq!(registry.get_backend_for_model("x", None).unwrap().name(), "other");
    assert_eq!(registry.len(), 2);
}

#[test]
fn one_text_backend_serves_its_models_and_any_other() {
    let mut registry = TextBackendRegistry::new();
    registry.add_backend(text_config("gpt-local", &["gpt-4", "gpt-3.5-turbo"]), &no_env()).unwrap();

    assert_eq!(registry.get_backend_for_model("gpt-3.5-turbo", None).unwrap().name(), "gpt-local");
    // Any enabled backend takes a model that none declares.
    assert_eq!(registry.get_backend_for_model("opus-3", None).unwrap().name(), "gpt-local");
}

#[test]
fn no_backend_for_a_model_is_no_healthy_backends() {
    let registry = TextBackendRegistry::new();
    let error = registry.get_backend_for_model("opus-3", None).err().unwrap();
    assert_eq!(error.kind(), ErrorKind::NoHealthyBackends);
    assert_eq!(error.message(), "no available backend for model 'opus-3'");
    assert_eq!(error.status_code(), 503);

    let mut registry = TextBackendRegistry::new();
    let mut off = text_config("off", &["opus-3"]);
    off.enabled = false;
    registry.add_backend(off, &no_env()).unwrap();
    let error = registry.get_backend_for_model("opus-3", None).err().unwrap();
    assert_eq!(error.kind(), ErrorKind::NoHealthyBackends);
}

#[test]
fn a_preferred_backend_wins_whatever_its_state() {
    let mut registry = TextBackendRegistry::new();
    registry.add_backend(text_config("a", &["m"]), &no_env()).unwrap();
    let mut off = text_config("off", &[]);
    off.enabled = false;
    registry.add_backend(off, &no_env()).unwrap();

    assert_eq!(registry.get_backend_for_model("m", Some("off")).unwrap().name(), "off");
    // A preferred backend that is not registered is passed over.
    assert_eq!(registry.get_backend_for_model("m", Some("gone")).unwrap().name(), "a");
}

#[test]
fn selection_falls_back_in_registry_order() {
    let mut registry = TextBackendRegistry::new();
    let mut off = text_config("off", &["m"]);
    off.enabled = false;
    registry.add_backend(text_config("first", &[]), &no_env()).unwrap();
    registry.add_backend(text_config("second", &["shared"]), &no_env()).unwrap();
    registry.add_backend(off, &no_env()).unwrap();
    registry.add_backend(text_config("third", &["shared"]), &no_env()).unwrap();

    // `shared` is bound to the backend that declared it last.
    assert_eq!(registry.get_backend_for_model("shared", None).unwrap().name(), "third");
    // `m` is bound to a disabled backend and declared by no enabled one.
    assert_eq!(registry.get_backend_for_model("m", None).unwrap().name(), "first");

    // Once the owner of `shared` is gone, the first enabled backend that declares it serves it.
    registry.remove_backend("third").unwrap();
    assert_eq!(registry.get_backend_for_model("shared", None).unwrap().name(), "second");
}

#[test]
fn the_second_add_wins_a_model() {
    let mut registry = TextBackendRegistry::new();
    registry.add_backend(text_config("one", &["m"]), &no_env()).unwrap();
    assert_eq!(registry.get_backend_for_model("m", None).unwrap().name(), "one");
    registry.add_backend(text_config("two", &["m"]), &no_env()).unwrap();
    assert_eq!(registry.get_backend_for_model("m", None).unwrap().name(), "two");
}

#[test]
fn removal_unbinds_the_models_of_the_backend() {
    let mut registry = TextBackendRegistry::new();
    registry.add_backend(text_config("keep", &["k"]), &no_env()).unwrap();
    registry.add_backend(text_config("n", &["m1", "m2"]), &no_env()).unwrap();

    registry.remove_backend("n").unwrap();

    assert!(registry.get_backend("n").is_none());
    assert_eq!(registry.len(), 1);
    // Nothing is bound to the removed backend: its models fall to another backend.
    assert_eq!(registry.get_backend_for_model("m1", None).unwrap().name(), "keep");
    assert_eq!(registry.get_backend_for_model("k", None).unwrap().name(), "keep");

    // A backend that takes the free slot does not inherit the models.
    registry.add_backend(text_config("new", &[]), &no_env()).unwrap();
    let mut keep_off = registry.get_backend("keep").is_some();
    keep_off &= registry.get_backend_for_model("m2", None).unwrap().name() == "keep";
    assert!(keep_off);
}

#[test]
fn text_registry_refuses_what_it_cannot_hold() {
    let mut registry = TextBackendRegistry::new();
    let mut image = text_config("img", &[]);
    image.backend_type = BackendType::Image;
    let error = registry.add_backend(image, &no_env()).unwrap_err();
    assert_eq!(error.kind(), ErrorKind::Internal);
    assert_eq!(error.message(), "Backend 'img' is not a text backend");

    registry.add_backend(text_config("t", &["m"]), &no_env()).unwrap();
    let error = registry.add_backend(text_config("t", &["other"]), &no_env()).unwrap_err();
    assert_eq!(error.kind(), ErrorKind::InvalidRequest);
    assert_eq!(error.message(), "Backend 't' already exists");
    // The refused backend bound nothing.
    assert_eq!(registry.get_backend("t").unwrap().models(), vec!["m".to_string()]);

    let mut grpc = text_config("rpc", &["g"]);
    grpc.protocol = ProtocolType::Grpc;
    let error = registry.add_backend(grpc, &no_env()).unwrap_err();
    assert_eq!(error.kind(), ErrorKind::Internal);
    assert_eq!(registry.len(), 1);

    let error = registry.remove_backend("missing").unwrap_err();
    assert_eq!(error.kind(), ErrorKind::BackendNotFound);
    assert_eq!(error.message(), "missing");
}

#[test]
fn text_registry_lists_in_slot_order() {
    let mut registry = TextBackendRegistry::default();
    registry.add_backend(text_config("a", &["m"]), &no_env()).unwrap();
    let mut ant = text_config("b", &[]);
    ant.protocol = ProtocolType::Anthropic;
    registry.add_backend(ant, &no_env()).unwrap();

    let listed: Vec<(String, String)> =
        registry.list_backends().into_iter().map(|s| (s.name, s.protocol)).collect();
    assert_eq!(
        listed,
        vec![("a".to_string(), "openai".to_string()), ("b".to_string(), "anthropic".to_string())]
    );
    let all: Vec<&str> = registry.get_all_backends().iter().map(|b| b.name()).collect();
    assert_eq!(all, vec!["a", "b"]);
}

#[test]
fn dispatch_through_the_text_registry() {
    let mut registry = TextBackendRegistry::new();
    registry.add_backend(text_config("t", &["m"]), &no_env()).unwrap();

    let request = registry.begin("t", Operation::ChatCompletion).unwrap();
    assert_eq!(request.url, "http://t:8000/v1/chat/completions");
    let error = registry.begin("gone", Operation::ChatCompletion).unwrap_err();
    assert_eq!(error.kind(), ErrorKind::BackendNotFound);

    for _ in 0..3 {
        let reply: UpstreamReply<()> = UpstreamReply::Unreachable("down".to_string());
        assert!(registry.complete("t", &request.endpoint, reply).is_err());
    }
    assert!(!registry.get_backend("t").unwrap().status().healthy);
    let error = registry.begin("t", Operation::ChatCompletion).unwrap_err();
    assert_eq!(error.kind(), ErrorKind::NoHealthyBackends);
    assert_eq!(error.message(), "t");
    let error = registry.list_models("t").err().unwrap();
    assert_eq!(error.kind(), ErrorKind::NoHealthyBackends);

    // A reply for a backend that is gone still gives its result.
    let reply = UpstreamReply::Answered {
        status: 200,
        status_line: "200 OK".to_string(),
        parsed: Ok(5),
        body: String::new(),
    };
    assert_eq!(registry.complete("gone", "http://x", reply).unwrap(), 5);
    assert!(registry.list_models("gone").is_err());
}

#[test]
fn probe_rounds_through_the_text_registry() {
    let mut registry = TextBackendRegistry::new();
    registry.add_backend(text_config("a", &[]), &no_env()).unwrap();
    registry.add_backend(text_config("b", &[]), &no_env()).unwrap();
    let rounds = vec![
        ("a".to_string(), vec![("http://a:8000/v1/".to_string(), ProbeReply::Status(200))]),
        ("gone".to_string(), vec![("http://x".to_string(), ProbeReply::Status(200))]),
        ("b".to_string(), vec![("http://b:8000/v1/".to_string(), ProbeReply::Unreachable)]),
    ];

    assert_eq!(registry.health_check_all(&rounds), (2, 1, 1));
    assert_eq!(registry.health_check_all(&rounds), (2, 1, 1));
    assert!(registry.get_backend("b").unwrap().status().healthy);
    assert_eq!(registry.health_check_all(&rounds), (2, 1, 1));
    assert!(!registry.get_backend("b").unwrap().status().healthy);
    assert!(registry.get_backend("a").unwrap().status().healthy);
    assert_eq!(registry.record_probes("gone", &Vec::new()), None);
    assert_eq!(registry.record_probes("a", &Vec::new()), Some(false));
}
