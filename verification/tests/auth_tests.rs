use agentbox::auth::{extract_api_key, extract_bearer_token, transform_auth_headers, AuthStrategy};

fn make_headers(auth: &str) -> Vec<(String, String)> {
    vec![("authorization".into(), format!("Bearer {}", auth))]
}

fn make_x_api_key_headers(key: &str) -> Vec<(String, String)> {
    vec![("x-api-key".into(), key.into())]
}

#[test]
fn test_passthrough() {
    let h = transform_auth_headers(&make_headers("sk-123"), &AuthStrategy::Passthrough, "sk-123");
    assert!(h.iter().any(|(k, v)| k == "authorization" && v == "Bearer sk-123"));
}

#[test]
fn test_anthropic_conversion() {
    let h = transform_auth_headers(
        &make_headers("sk-ant-xxx"),
        &AuthStrategy::BearerToApiKey,
        "sk-ant-xxx",
    );
    assert!(h.iter().any(|(k, v)| k == "x-api-key" && v == "sk-ant-xxx"));
    assert!(h.iter().any(|(k, v)| k == "anthropic-version" && v == "2023-06-01"));
    assert!(!h.iter().any(|(k, _)| k == "authorization"));
}

#[test]
fn test_gemini_conversion() {
    let h = transform_auth_headers(
        &make_headers("AIza-xxx"),
        &AuthStrategy::BearerToGoogleKey,
        "AIza-xxx",
    );
    assert!(h.iter().any(|(k, v)| k == "x-goog-api-key" && v == "AIza-xxx"));
    assert!(!h.iter().any(|(k, _)| k == "authorization"));
}

#[test]
fn test_custom_header_from_bearer() {
    let h = transform_auth_headers(
        &make_headers("sk-mimo-xxx"),
        &AuthStrategy::CustomHeader("mimo-api-key".into()),
        "sk-mimo-xxx",
    );
    assert!(h.iter().any(|(k, v)| k == "mimo-api-key" && v == "sk-mimo-xxx"));
    assert!(!h.iter().any(|(k, _)| k == "authorization"));
    assert!(!h.iter().any(|(k, _)| k == "x-api-key"));
}

#[test]
fn test_custom_header_from_x_api_key() {
    let h = transform_auth_headers(
        &make_x_api_key_headers("sk-mimo-xxx"),
        &AuthStrategy::CustomHeader("mimo-api-key".into()),
        "",
    );
    assert!(h.iter().any(|(k, v)| k == "mimo-api-key" && v == "sk-mimo-xxx"));
}

#[test]
fn test_custom_header_prefers_param_over_inbound() {
    let h = transform_auth_headers(
        &make_headers("old-key"),
        &AuthStrategy::CustomHeader("x-custom".into()),
        "new-key",
    );
    assert!(h.iter().any(|(k, v)| k == "x-custom" && v == "new-key"));
}

#[test]
fn test_extract_api_key_prefers_x_api_key() {
    let mut headers = make_headers("from-bearer");
    headers.push(("x-api-key".into(), "from-x-api-key".into()));
    assert_eq!(extract_api_key(&headers), Some("from-x-api-key".into()));
}

#[test]
fn test_extract_api_key_falls_back_to_bearer() {
    let headers = make_headers("from-bearer");
    assert_eq!(extract_api_key(&headers), Some("from-bearer".into()));
}

#[test]
fn test_extract_bearer() {
    let h = make_headers("sk-test");
    assert_eq!(extract_bearer_token(&h), Some("sk-test".into()));
    assert_eq!(extract_bearer_token(&[]), None);
}

#[test]
fn test_preserves_other_headers() {
    let mut h = make_headers("sk-123");
    h.push(("content-type".into(), "application/json".into()));
    let result = transform_auth_headers(&h, &AuthStrategy::BearerToApiKey, "sk-123");
    assert!(result.iter().any(|(k, _)| k == "content-type"));
}

#[test]
fn test_with_override() {
    let base = AuthStrategy::from_auth_type("openai");
    let overridden = AuthStrategy::with_override(base.clone(), Some("x-custom-key"));
    assert_eq!(overridden, AuthStrategy::CustomHeader("x-custom-key".into()));

    let unchanged = AuthStrategy::with_override(base.clone(), None);
    assert_eq!(unchanged, AuthStrategy::Passthrough);
}

#[test]
fn auth_header_names_match_case_insensitively() {
    let h = vec![
        ("Authorization".to_string(), "Bearer inbound".to_string()),
        ("X-Api-Key".to_string(), "".to_string()),
        ("Accept".to_string(), "*/*".to_string()),
    ];
    let out = transform_auth_headers(&h, &AuthStrategy::BearerToGoogleKey, "");
    assert_eq!(
        out,
        vec![
            ("Accept".to_string(), "*/*".to_string()),
            ("x-goog-api-key".to_string(), "inbound".to_string()),
        ]
    );
}

#[test]
fn anthropic_without_key_still_sends_version() {
    let out = transform_auth_headers(&[], &AuthStrategy::BearerToApiKey, "");
    assert_eq!(out, vec![("anthropic-version".to_string(), "2023-06-01".to_string())]);
}

#[test]
fn bearer_requires_exact_prefix() {
    let h = vec![("authorization".to_string(), "Basic abc".to_string())];
    assert_eq!(extract_bearer_token(&h), None);
    assert_eq!(extract_api_key(&h), None);
}

#[test]
fn strategy_from_type_names() {
    assert_eq!(AuthStrategy::from_auth_type("anthropic"), AuthStrategy::BearerToApiKey);
    assert_eq!(AuthStrategy::from_auth_type("gemini"), AuthStrategy::BearerToGoogleKey);
    assert_eq!(AuthStrategy::from_auth_type("Anthropic"), AuthStrategy::Passthrough);
    assert_eq!(
        AuthStrategy::with_override(AuthStrategy::BearerToApiKey, Some("")),
        AuthStrategy::BearerToApiKey
    );
}
