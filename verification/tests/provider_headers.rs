use cake::provider::{
    infer_provider, ModelProvider, ModelSettings, ProviderHeaders, ProviderStrategy, OPENROUTER_REFERER,
    OPENROUTER_TITLE,
};

fn test_config(base_url: &str, providers: &[&str]) -> ModelSettings {
    ModelSettings {
        base_url: base_url.to_string(),
        provider: None,
        provider_headers: None,
        providers: providers.iter().map(|p| p.to_string()).collect(),
    }
}

fn header<'h>(headers: &'h [(String, String)], name: &str) -> Option<&'h str> {
    headers
        .iter()
        .find(|(n, _)| n.eq_ignore_ascii_case(name))
        .map(|(_, v)| v.as_str())
}

fn headers_for(config: &ModelSettings, session_id: uuid::Uuid) -> Vec<(String, String)> {
    ProviderStrategy::from_config(config).provider_headers(session_id.as_bytes())
}

fn fixed_session() -> uuid::Uuid {
    uuid::Uuid::parse_str("6f9619ff-8b86-d011-b42d-00c04fc964ff").unwrap()
}

#[test]
fn openrouter_headers_apply_only_to_openrouter_urls() {
    let generic_config = test_config("https://api.example.com/v1", &[]);
    let generic = headers_for(&generic_config, uuid::Uuid::nil());
    assert!(header(&generic, "HTTP-Referer").is_none());
    assert!(header(&generic, "X-Title").is_none());

    let openrouter_config = test_config("https://openrouter.ai/api/v1", &[]);
    let openrouter = headers_for(&openrouter_config, uuid::Uuid::nil());
    assert_eq!(header(&openrouter, "HTTP-Referer"), Some(OPENROUTER_REFERER));
    assert_eq!(header(&openrouter, "X-Title"), Some(OPENROUTER_TITLE));
}

#[test]
fn openrouter_detection_accepts_subdomains() {
    assert_eq!(
        infer_provider("https://gateway.openrouter.ai/api/v1"),
        Some(ModelProvider::OpenRouter)
    );
    assert_eq!(infer_provider("https://not-openrouter.example.com/api/v1"), None);
    assert_eq!(infer_provider("not a url"), None);
}

#[test]
fn opencode_detection_prefers_explicit_provider_over_url() {
    let mut config = test_config("https://api.example.com/v1", &[]);
    config.provider = Some(ModelProvider::OpenCode);
    assert_eq!(ProviderStrategy::from_config(&config).provider(), Some(ModelProvider::OpenCode));

    assert_eq!(infer_provider("https://opencode.ai/zen"), Some(ModelProvider::OpenCode));
    assert_eq!(infer_provider("https://opencode.ai/zen/go/v1/"), Some(ModelProvider::OpenCode));
    assert_eq!(infer_provider("https://gateway.opencode.ai/api/v1"), Some(ModelProvider::OpenCode));
    assert_eq!(infer_provider("https://not-opencode.example.com/api/v1"), None);
    assert_eq!(infer_provider("not a url"), None);
}

#[test]
fn explicit_provider_wins_over_url_inference() {
    let session_id = fixed_session();

    let mut config = test_config("https://opencode.ai/zen", &[]);
    config.provider = Some(ModelProvider::OpenRouter);
    assert_eq!(ProviderStrategy::from_config(&config).provider(), Some(ModelProvider::OpenRouter));
    let headers = headers_for(&config, session_id);
    assert!(header(&headers, "HTTP-Referer").is_some());
    assert!(header(&headers, "x-opencode-session").is_none());

    let mut config = test_config("https://openrouter.ai/api/v1", &[]);
    config.provider = Some(ModelProvider::OpenCode);
    assert_eq!(ProviderStrategy::from_config(&config).provider(), Some(ModelProvider::OpenCode));
    let headers = headers_for(&config, session_id);
    assert_eq!(
        header(&headers, "x-opencode-session"),
        Some(session_id.to_string()).as_deref()
    );
    assert!(header(&headers, "HTTP-Referer").is_none());
    assert!(header(&headers, "X-Title").is_none());
}

#[test]
fn opencode_header_carries_session_uuid() {
    let session_id = uuid::Uuid::parse_str("550e8400-e29b-41d4-a716-446655440000").unwrap();

    let mut explicit = test_config("https://api.example.com/v1", &[]);
    explicit.provider = Some(ModelProvider::OpenCode);
    let headers = headers_for(&explicit, session_id);
    assert_eq!(
        header(&headers, "x-opencode-session"),
        Some("550e8400-e29b-41d4-a716-446655440000")
    );
    assert!(header(&headers, "HTTP-Referer").is_none());
    assert!(header(&headers, "X-Title").is_none());

    let inferred = test_config("https://opencode.ai/zen/go/v1/", &[]);
    let headers = headers_for(&inferred, session_id);
    assert_eq!(
        header(&headers, "x-opencode-session"),
        Some("550e8400-e29b-41d4-a716-446655440000")
    );
}

#[test]
fn generic_provider_sends_no_opencode_session_header() {
    let generic = test_config("https://api.example.com/v1", &[]);
    let headers = headers_for(&generic, fixed_session());
    assert!(header(&headers, "x-opencode-session").is_none());
}

#[test]
fn openrouter_provider_sends_no_opencode_session_header() {
    let config = test_config("https://openrouter.ai/api/v1", &[]);
    let headers = headers_for(&config, fixed_session());
    assert!(header(&headers, "x-opencode-session").is_none());
    assert!(header(&headers, "HTTP-Referer").is_some());
}

#[test]
fn explicit_openrouter_provider_applies_configured_headers() {
    let mut config = test_config("https://api.example.com/v1", &[]);
    config.provider = Some(ModelProvider::OpenRouter);
    config.provider_headers = Some(ProviderHeaders {
        http_referer: Some("https://example.com/cake".to_string()),
        x_title: Some("custom-cake".to_string()),
    });
    let headers = headers_for(&config, uuid::Uuid::nil());
    assert_eq!(header(&headers, "HTTP-Referer"), Some("https://example.com/cake"));
    assert_eq!(header(&headers, "X-Title"), Some("custom-cake"));
}

#[test]
fn configured_empty_openrouter_headers_disable_default_headers() {
    let mut config = test_config("https://openrouter.ai/api/v1", &[]);
    config.provider_headers = Some(ProviderHeaders {
        http_referer: None,
        x_title: None,
    });
    let headers = headers_for(&config, uuid::Uuid::nil());
    assert!(header(&headers, "HTTP-Referer").is_none());
    assert!(header(&headers, "X-Title").is_none());
}

#[test]
fn provider_routing_applies_only_to_openrouter_with_specific_providers() {
    let generic_config = test_config("https://api.example.com/v1", &["anthropic"]);
    assert!(ProviderStrategy::from_config(&generic_config).responses_provider_config().is_none());

    let openrouter_all_config = test_config("https://openrouter.ai/api/v1", &["all"]);
    assert!(ProviderStrategy::from_config(&openrouter_all_config).responses_provider_config().is_none());

    let openrouter_config = test_config("https://openrouter.ai/api/v1", &["anthropic"]);
    let provider = ProviderStrategy::from_config(&openrouter_config).responses_provider_config().unwrap();
    assert_eq!(provider.only, vec!["anthropic".to_string()]);
}
