use agentbox::auth::AuthStrategy;
use agentbox::db::ModelRoute;
use agentbox::engine::{
    compression_columns, estimate_tokens, is_stream_request, pick_auth_strategy, plan_forward, proxy_status,
    requested_model, resolve_route,
};

fn route(model_db_id: i64, provider_id: i64, model_id: &str, auth_type: &str, billing: &str) -> ModelRoute {
    ModelRoute {
        model_db_id,
        model_id: model_id.to_string(),
        auth_type: auth_type.to_string(),
        is_default: true,
        config_json: None,
        provider_id,
        provider_name: format!("p{}", provider_id),
        base_url: "https://api.test.com".to_string(),
        api_key_env: "TEST_KEY".to_string(),
        proxy_mode: "direct".to_string(),
        proxy_url: None,
        auth_header: None,
        billing_type: billing.to_string(),
        compress_enabled: false,
    }
}

#[test]
fn test_pick_auth_strategy_chat_endpoint() {
    let s = pick_auth_strategy(r#"["openai","anthropic"]"#, "/v1/chat/completions");
    assert!(matches!(s, AuthStrategy::Passthrough));
}

#[test]
fn test_pick_auth_strategy_messages_endpoint() {
    let s = pick_auth_strategy(r#"["openai","anthropic"]"#, "/v1/messages");
    assert!(matches!(s, AuthStrategy::BearerToApiKey));
}

#[test]
fn test_pick_auth_strategy_fallback() {
    let s = pick_auth_strategy(r#"["openai"]"#, "/v1/messages");
    assert!(matches!(s, AuthStrategy::Passthrough));
}

#[test]
fn test_pick_auth_strategy_legacy_format() {
    let s = pick_auth_strategy("anthropic", "/v1/chat/completions");
    assert!(matches!(s, AuthStrategy::BearerToApiKey));
}

#[test]
fn test_resolve_route_no_model() {
    let result = resolve_route("nonexistent", Ok(None));
    assert!(result.is_err());
    let e = result.err().unwrap();
    assert_eq!(e.status, 404);
    assert_eq!(e.message, "no route for model 'nonexistent'");
}

#[test]
fn test_resolve_route_with_model() {
    let found = route(1, 1, "gpt-4o", r#"["openai","anthropic"]"#, "pay_per_use");
    let r = resolve_route("gpt-4o", Ok(Some(found))).ok().unwrap();
    assert_eq!(r.model_id, "gpt-4o");
    assert!(r.auth_type.contains("openai"));
    assert_eq!(r.proxy_mode, "direct");
}

#[test]
fn resolve_route_passes_lookup_failure_as_500() {
    let e = resolve_route("m", Err("db locked".to_string())).err().unwrap();
    assert_eq!(e.status, 500);
    assert_eq!(e.message, "db locked");
}

#[test]
fn token_estimate_rounds_up() {
    assert_eq!(estimate_tokens(0), 0);
    assert_eq!(estimate_tokens(1), 1);
    assert_eq!(estimate_tokens(4), 1);
    assert_eq!(estimate_tokens(5), 2);
    assert_eq!(estimate_tokens(400), 100);
}

#[test]
fn compression_columns_saturate() {
    assert_eq!(compression_columns(None), (false, 0, 0));
    assert_eq!(compression_columns(Some((100, 40))), (true, 100, 60));
    assert_eq!(compression_columns(Some((10, 40))), (true, 10, 0));
}

#[test]
fn stream_flag_and_model_field() {
    assert!(is_stream_request(r#"{"model":"m","stream":true}"#));
    assert!(!is_stream_request(r#"{"model":"m","stream":"yes"}"#));
    assert!(!is_stream_request("not json"));
    assert_eq!(requested_model(r#"{"model":"gpt-4o"}"#).ok().unwrap(), "gpt-4o");
    let missing = requested_model(r#"{"messages":[]}"#).err().unwrap();
    assert_eq!(missing.status, 400);
    assert_eq!(missing.message, "missing 'model' field");
    let invalid = requested_model("not json at all").err().unwrap();
    assert_eq!(invalid.status, 400);
    assert!(invalid.message.starts_with("invalid JSON: "));
}

#[test]
fn forward_plan_for_anthropic_messages() {
    let r = route(1, 1, "m", r#"["openai","anthropic"]"#, "plan");
    let plan = plan_forward(&r, "/v1/messages", r#"{"model":"m","stream":true}"#, "sk-1");
    assert_eq!(plan.url, "https://api.test.com/v1/messages");
    assert!(plan.is_stream);
    assert!(plan.headers.iter().any(|(k, v)| k == "x-api-key" && v == "sk-1"));
    assert!(!plan.headers.iter().any(|(k, _)| k == "authorization"));
}

#[test]
fn proxy_status_hint() {
    let up = proxy_status(true, 18900);
    assert!(up.running);
    assert_eq!(up.port, 18900);
    assert_eq!(up.uptime_hint, "运行中");
    assert_eq!(proxy_status(false, 1).uptime_hint, "未启动");
}
