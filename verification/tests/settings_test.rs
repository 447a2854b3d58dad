use gen_serving_gateway::config::Settings;

#[test]
fn settings_test_default_settings() {
    let settings = Settings::default();
    assert_eq!(settings.server.host, "0.0.0.0");
    assert_eq!(settings.server.port, 8080);
    assert!(settings.auth.enabled);
    assert!(settings.rate_limit.enabled);
}
