use gen_serving_gateway::config::settings::{
    default_auth_type, default_health_timeout, default_lb_strategy, default_retry_count,
};
use gen_serving_gateway::config::{
    BackendConfig, BackendGroups, BackendType, BackendsConfig, FileFormat, ProtocolType, Settings,
};
use gen_serving_gateway::error::ErrorKind;

fn backend(name: &str, protocol: ProtocolType, endpoints: Vec<String>) -> BackendConfig {
    BackendConfig {
        name: name.to_string(),
        protocol,
        endpoints,
        health_check_path: "/health".to_string(),
        health_check_interval_secs: 30,
        timeout_ms: 60000,
        weight: 1,
        enabled: true,
        ..Default::default()
    }
}

#[test]
fn test_settings_validation_valid() {
    let mut settings = Settings::default();
    settings.server.port = 15115;
    settings.backends =
        vec![backend("test-backend", ProtocolType::Http, vec!["http://localhost:8001".to_string()])];

    assert!(settings.validate().is_ok());
}

#[test]
fn test_settings_validation_invalid_port() {
    let mut settings = Settings::default();
    settings.server.port = 0;

    assert!(settings.validate().is_err());
}

#[test]
fn test_settings_validation_empty_backend_name() {
    let mut settings = Settings::default();
    settings.backends =
        vec![backend("", ProtocolType::Http, vec!["http://localhost:8001".to_string()])];

    assert!(settings.validate().is_err());
}

#[test]
fn test_settings_validation_no_endpoints() {
    let mut settings = Settings::default();
    settings.backends = vec![backend("test", ProtocolType::Http, vec![])];

    assert!(settings.validate().is_err());
}

#[test]
fn test_backend_config_defaults() {
    let config = backend("test", ProtocolType::Http, vec!["http://localhost:8001".to_string()]);

    assert_eq!(config.weight, 1);
    assert!(config.enabled);
}

#[test]
fn test_settings_validation() {
    let mut settings = Settings::default();
    settings.server.port = 15115;
    assert!(settings.validate().is_ok());
}

#[test]
fn test_settings_invalid_port() {
    let mut settings = Settings::default();
    settings.server.port = 0;
    assert!(settings.validate().is_err());
}

#[test]
fn validation_messages_name_the_first_fault() {
    let mut settings = Settings::default();
    settings.backends = vec![
        backend("ok", ProtocolType::Http, vec!["http://a".to_string()]),
        backend("bare", ProtocolType::Http, vec![]),
        backend("", ProtocolType::Http, vec!["http://b".to_string()]),
    ];
    let error = settings.validate().unwrap_err();
    assert_eq!(error.kind(), ErrorKind::Config);
    assert_eq!(error.message(), "Backend 'bare' must have at least one endpoint");

    settings.backends.remove(1);
    let error = settings.validate().unwrap_err();
    assert_eq!(error.message(), "Backend name cannot be empty");

    settings.server.port = 0;
    let error = settings.validate().unwrap_err();
    assert_eq!(error.message(), "Server port cannot be 0");
}

#[test]
fn default_settings_in_full() {
    let settings = Settings::default();
    assert!(settings.auth.api_keys.is_empty());
    assert_eq!(settings.auth.bypass_paths, vec!["/health".to_string()]);
    assert_eq!(settings.rate_limit.requests_per_second, 100);
    assert_eq!(settings.rate_limit.burst_size, 200);
    assert_eq!(settings.storage.base_path, "./generated");
    assert_eq!(settings.storage.url_prefix, "http://localhost:8080/files");
    assert_eq!(settings.logging.level, "info");
    assert_eq!(settings.logging.format, "json");
    assert!(settings.backends.is_empty());
    assert!(settings.validate().is_ok());
}

#[test]
fn default_backend_config_in_full() {
    let config = BackendConfig::default();
    assert_eq!(config.name, "");
    assert_eq!(config.backend_type, BackendType::Image);
    assert_eq!(config.protocol, ProtocolType::Http);
    assert!(config.endpoints.is_empty());
    assert!(config.enabled);
    assert_eq!(config.auth.auth_type, "");
    assert!(config.auth.token_env.is_none());
    assert_eq!(config.health_check.path, "");
    assert_eq!(config.health_check.interval_secs, 0);
    assert_eq!(config.load_balancer.weight, 0);
    assert_eq!(config.health_check_path, "/health");
    assert_eq!(config.health_check_interval_secs, 30);
    assert_eq!(config.timeout_ms, 60000);
    assert_eq!(config.weight, 1);
}

#[test]
fn defaults_of_a_configuration_file() {
    assert_eq!(default_auth_type(), "none");
    assert_eq!(default_health_timeout(), 5);
    assert_eq!(default_lb_strategy(), "round_robin");
    assert_eq!(default_retry_count(), 3);
}

#[test]
fn protocol_tags() {
    assert_eq!(ProtocolType::Http.to_string(), "http");
    assert_eq!(ProtocolType::Grpc.to_string(), "grpc");
    assert_eq!(ProtocolType::OpenAI.to_string(), "openai");
    assert_eq!(ProtocolType::Anthropic.to_string(), "anthropic");
    assert_eq!(ProtocolType::Tgi.as_str(), "tgi");
    assert_eq!(ProtocolType::default(), ProtocolType::Http);
    assert_eq!(BackendType::default(), BackendType::Image);
}

#[test]
fn flatten_sets_the_type_of_the_image_and_text_groups() {
    let mut image = backend("img", ProtocolType::Http, vec!["http://i".to_string()]);
    image.backend_type = BackendType::Text;
    let text = backend("txt", ProtocolType::OpenAI, vec!["http://t".to_string()]);
    let mut grpc = backend("rpc", ProtocolType::Grpc, vec!["http://g".to_string()]);
    grpc.backend_type = BackendType::Multi;
    let config = BackendsConfig {
        backends: BackendGroups { image: vec![image], text: vec![text], grpc: vec![grpc] },
        ..Default::default()
    };

    let flat = Settings::flatten_backends(config);

    let seen: Vec<(String, BackendType)> =
        flat.into_iter().map(|b| (b.name, b.backend_type)).collect();
    assert_eq!(
        seen,
        vec![
            ("img".to_string(), BackendType::Image),
            ("txt".to_string(), BackendType::Text),
            ("rpc".to_string(), BackendType::Multi),
        ]
    );
}

#[test]
fn backends_by_type_are_the_enabled_ones_of_that_type() {
    let mut settings = Settings::default();
    let mut text = backend("t1", ProtocolType::OpenAI, vec!["http://t".to_string()]);
    text.backend_type = BackendType::Text;
    let mut off = backend("t2", ProtocolType::OpenAI, vec!["http://t".to_string()]);
    off.backend_type = BackendType::Text;
    off.enabled = false;
    let image = backend("i1", ProtocolType::Http, vec!["http://i".to_string()]);
    settings.backends = vec![image, text, off];

    let texts: Vec<&str> =
        settings.get_backends_by_type(BackendType::Text).iter().map(|b| b.name.as_str()).collect();
    assert_eq!(texts, vec!["t1"]);
    let images: Vec<&str> =
        settings.get_backends_by_type(BackendType::Image).iter().map(|b| b.name.as_str()).collect();
    assert_eq!(images, vec!["i1"]);
    let enabled: Vec<&str> =
        settings.get_enabled_backends().iter().map(|b| b.name.as_str()).collect();
    assert_eq!(enabled, vec!["i1", "t1"]);
}

#[test]
fn file_format_goes_by_the_extension() {
    assert_eq!(Settings::file_format(Some("yaml")), FileFormat::Yaml);
    assert_eq!(Settings::file_format(Some("yml")), FileFormat::Yaml);
    assert_eq!(Settings::file_format(Some("toml")), FileFormat::Toml);
    assert_eq!(Settings::file_format(Some("YAML")), FileFormat::Toml);
    assert_eq!(Settings::file_format(None), FileFormat::Toml);
}

#[test]
fn authentication_accepts_a_configured_key_as_bearer_token() {
    let mut settings = Settings::default();
    settings.auth.api_keys = vec!["k1".to_string(), "k2".to_string()];

    assert!(settings.auth.accepts(Some("Bearer k2")));
    assert!(!settings.auth.accepts(Some("Bearer k3")));
    assert!(!settings.auth.accepts(Some("Bearer ")));
    assert!(!settings.auth.accepts(Some("bearer k1")));
    assert!(!settings.auth.accepts(Some("k1")));
    assert!(!settings.auth.accepts(None));

    settings.auth.enabled = false;
    assert!(settings.auth.accepts(None));
    assert!(settings.auth.accepts(Some("Bearer k3")));
}

#[test]
fn backends_of_a_backends_file_take_the_place_of_the_configured_ones() {
    let mut settings = Settings::default();
    settings.backends = vec![backend("old", ProtocolType::Http, vec!["http://o".to_string()])];
    let config = BackendsConfig {
        backends: BackendGroups {
            image: vec![],
            text: vec![backend("txt", ProtocolType::OpenAI, vec!["http://t".to_string()])],
            grpc: vec![],
        },
        ..Default::default()
    };

    settings.apply_backends(config);

    assert_eq!(settings.backends.len(), 1);
    assert_eq!(settings.backends[0].name, "txt");
    assert_eq!(settings.backends[0].backend_type, BackendType::Text);
    assert_eq!(settings.server.port, 8080);
}
