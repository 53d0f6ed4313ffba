use cake::provider::{demote_developer_to_user, ChatMessage, ChatToolCall, ProviderStrategy, Role};

fn assistant_tool_call_message() -> ChatMessage {
    ChatMessage {
        role: Role::Assistant,
        content: None,
        reasoning_content: None,
        tool_calls: Some(vec![ChatToolCall {
            id: "call-1".to_string(),
            name: "bash".to_string(),
            arguments: r#"{"cmd":"ls"}"#.to_string(),
        }]),
        tool_call_id: None,
    }
}

#[test]
fn transform_injects_reasoning_placeholder_for_tool_call_messages() {
    let mut messages = vec![assistant_tool_call_message()];

    ProviderStrategy::transform_chat_messages(&mut messages);

    assert_eq!(messages[0].reasoning_content.as_deref(), Some(" "));
}

#[test]
fn transform_preserves_existing_reasoning_content() {
    let mut messages = vec![assistant_tool_call_message()];
    messages[0].reasoning_content = Some("actual reasoning".to_string());

    ProviderStrategy::transform_chat_messages(&mut messages);

    assert_eq!(
        messages[0].reasoning_content.as_deref(),
        Some("actual reasoning")
    );
}

#[test]
fn demote_developer_changes_role_to_user() {
    let mut messages = vec![
        ChatMessage {
            role: Role::System,
            content: Some("system".to_string()),
            reasoning_content: None,
            tool_calls: None,
            tool_call_id: None,
        },
        ChatMessage {
            role: Role::Developer,
            content: Some("AGENTS.md context".to_string()),
            reasoning_content: None,
            tool_calls: None,
            tool_call_id: None,
        },
        ChatMessage {
            role: Role::Developer,
            content: Some("Environment context".to_string()),
            reasoning_content: None,
            tool_calls: None,
            tool_call_id: None,
        },
        ChatMessage {
            role: Role::User,
            content: Some("Hello".to_string()),
            reasoning_content: None,
            tool_calls: None,
            tool_call_id: None,
        },
    ];

    demote_developer_to_user(&mut messages);

    // Each developer message keeps its content, just becomes "user" role
    assert_eq!(messages.len(), 4);
    assert_eq!(messages[0].role, Role::System);
    assert_eq!(messages[1].role, Role::User);
    assert_eq!(messages[1].content.as_deref(), Some("AGENTS.md context"));
    assert_eq!(messages[2].role, Role::User);
    assert_eq!(messages[2].content.as_deref(), Some("Environment context"));
    assert_eq!(messages[3].role, Role::User);
    assert_eq!(messages[3].content.as_deref(), Some("Hello"));
}

#[test]
fn demote_developer_works_without_preceding_user_message() {
    let mut messages = vec![
        ChatMessage {
            role: Role::Developer,
            content: Some("context".to_string()),
            reasoning_content: None,
            tool_calls: None,
            tool_call_id: None,
        },
        ChatMessage {
            role: Role::Assistant,
            content: Some("response".to_string()),
            reasoning_content: None,
            tool_calls: None,
            tool_call_id: None,
        },
    ];

    demote_developer_to_user(&mut messages);

    assert_eq!(messages.len(), 2);
    assert_eq!(messages[0].role, Role::User);
    assert_eq!(messages[0].content.as_deref(), Some("context"));
}

#[test]
fn demote_developer_no_developer_messages_is_noop() {
    let mut messages = vec![
        ChatMessage {
            role: Role::System,
            content: Some("system".to_string()),
            reasoning_content: None,
            tool_calls: None,
            tool_call_id: None,
        },
        ChatMessage {
            role: Role::User,
            content: Some("Hello".to_string()),
            reasoning_content: None,
            tool_calls: None,
            tool_call_id: None,
        },
    ];

    demote_developer_to_user(&mut messages);

    assert_eq!(messages.len(), 2);
    assert_eq!(messages[0].role, Role::System);
    assert_eq!(messages[1].role, Role::User);
}

// -----------------------------------------------------------------------------
// Provider inference, headers and routing
// -----------------------------------------------------------------------------

use cake::provider::{
    host_matches_domain, infer_provider, provider_routing_config, ModelProvider, ModelSettings,
    ProviderHeaders,
};

fn settings(base_url: &str, provider: Option<ModelProvider>, providers: &[&str]) -> ModelSettings {
    ModelSettings {
        base_url: base_url.to_string(),
        provider,
        provider_headers: None,
        providers: providers.iter().map(|p| p.to_string()).collect(),
    }
}

#[test]
fn host_matching_requires_dot_subdomains() {
    assert!(host_matches_domain("openrouter.ai", "openrouter.ai"));
    assert!(host_matches_domain("api.openrouter.ai", "openrouter.ai"));
    assert!(!host_matches_domain("evilopenrouter.ai", "openrouter.ai"));
    assert!(!host_matches_domain("openrouter.ai.example.com", "openrouter.ai"));
    assert!(!host_matches_domain("ai", "openrouter.ai"));
}

#[test]
fn provider_is_inferred_from_base_url() {
    assert_eq!(infer_provider("https://openrouter.ai/api/v1"), Some(ModelProvider::OpenRouter));
    assert_eq!(infer_provider("https://eu.openrouter.ai/api/v1"), Some(ModelProvider::OpenRouter));
    assert_eq!(infer_provider("https://opencode.ai/zen/v1"), Some(ModelProvider::OpenCode));
    assert_eq!(infer_provider("https://api.example.com/v1"), None);
    assert_eq!(infer_provider("not a url"), None);
}

#[test]
fn configured_provider_wins_over_inference() {
    let config = settings("https://api.example.com/v1", Some(ModelProvider::OpenCode), &[]);
    assert_eq!(ProviderStrategy::from_config(&config).provider(), Some(ModelProvider::OpenCode));
    let inferred = settings("https://openrouter.ai/api/v1", None, &[]);
    assert_eq!(ProviderStrategy::from_config(&inferred).provider(), Some(ModelProvider::OpenRouter));
}

#[test]
fn openrouter_gets_default_attribution_headers() {
    let config = settings("https://openrouter.ai/api/v1", None, &[]);
    let headers = ProviderStrategy::from_config(&config).provider_headers(&[0; 16]);
    assert_eq!(
        headers,
        vec![
            ("HTTP-Referer".to_string(), "https://github.com/travisennis/cake".to_string()),
            ("X-Title".to_string(), "cake".to_string()),
        ]
    );
}

#[test]
fn openrouter_uses_configured_headers() {
    let mut config = settings("https://openrouter.ai/api/v1", None, &[]);
    config.provider_headers = Some(ProviderHeaders {
        http_referer: None,
        x_title: Some("mine".to_string()),
    });
    let headers = ProviderStrategy::from_config(&config).provider_headers(&[0; 16]);
    assert_eq!(headers, vec![("X-Title".to_string(), "mine".to_string())]);
}

#[test]
fn opencode_gets_the_session_header() {
    let config = settings("https://opencode.ai/zen/v1", None, &[]);
    let id = *uuid::Uuid::parse_str("550e8400-e29b-41d4-a716-446655440000").unwrap().as_bytes();
    let headers = ProviderStrategy::from_config(&config).provider_headers(&id);
    assert_eq!(
        headers,
        vec![(
            "x-opencode-session".to_string(),
            "550e8400-e29b-41d4-a716-446655440000".to_string()
        )]
    );
}

#[test]
fn other_providers_get_no_headers() {
    let config = settings("https://api.example.com/v1", None, &[]);
    assert!(ProviderStrategy::from_config(&config).provider_headers(&[0; 16]).is_empty());
}

#[test]
fn routing_only_for_explicit_openrouter_providers() {
    assert!(provider_routing_config(&[]).is_none());
    assert!(provider_routing_config(&["all".to_string()]).is_none());
    assert_eq!(
        provider_routing_config(&["anthropic".to_string()]).unwrap().only,
        vec!["anthropic".to_string()]
    );
    assert_eq!(
        provider_routing_config(&["all".to_string(), "x".to_string()]).unwrap().only,
        vec!["all".to_string(), "x".to_string()]
    );
    let openrouter_all = settings("https://openrouter.ai/api/v1", None, &["all"]);
    assert!(ProviderStrategy::from_config(&openrouter_all).responses_provider_config().is_none());
    let openrouter = settings("https://openrouter.ai/api/v1", None, &["anthropic"]);
    assert_eq!(
        ProviderStrategy::from_config(&openrouter).responses_provider_config().unwrap().only,
        vec!["anthropic".to_string()]
    );
    let generic = settings("https://api.example.com/v1", None, &["anthropic"]);
    assert!(ProviderStrategy::from_config(&generic).responses_provider_config().is_none());
}

#[test]
fn transform_demotes_and_fills_placeholder_together() {
    let mut messages = vec![
        ChatMessage {
            role: Role::Developer,
            content: Some("ctx".to_string()),
            reasoning_content: None,
            tool_calls: None,
            tool_call_id: None,
        },
        assistant_tool_call_message(),
        ChatMessage {
            role: Role::Assistant,
            content: Some("plain".to_string()),
            reasoning_content: None,
            tool_calls: None,
            tool_call_id: None,
        },
    ];
    ProviderStrategy::transform_chat_messages(&mut messages);
    assert_eq!(messages[0].role, Role::User);
    assert_eq!(messages[1].reasoning_content.as_deref(), Some(" "));
    assert_eq!(messages[2].reasoning_content, None);
}

use cake::provider::provider_for_host;

#[test]
fn hosts_map_to_providers() {
    assert_eq!(provider_for_host(Some("openrouter.ai")), Some(ModelProvider::OpenRouter));
    assert_eq!(provider_for_host(Some("eu.opencode.ai")), Some(ModelProvider::OpenCode));
    assert_eq!(provider_for_host(Some("notopencode.ai")), None);
    assert_eq!(provider_for_host(None), None);
}
