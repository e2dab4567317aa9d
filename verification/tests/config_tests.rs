use agentbox::config::{parse_settings, set_by_path, strip_jsonc_comments};
use agentbox::db::{Model, Provider};
use agentbox::json::{JsonNumber, JsonValue};
use agentbox::presets::ProviderPreset;
use agentbox::sync::{
    auth_type_list, build_env_from_db, get_effective_base_url, sync_providers_to_settings,
    validate_providers,
};

fn s(t: &str) -> String {
    t.to_string()
}

fn parse(t: &str) -> serde_json::Value {
    serde_json::from_str(t).unwrap()
}

fn to_serde(v: &JsonValue) -> serde_json::Value {
    match v {
        JsonValue::Null => serde_json::Value::Null,
        JsonValue::Bool(b) => serde_json::Value::Bool(*b),
        JsonValue::Number(JsonNumber::PosInt(u)) => serde_json::Value::from(*u),
        JsonValue::Number(JsonNumber::NegInt(i)) => serde_json::Value::from(*i),
        JsonValue::Number(JsonNumber::Float(t)) => serde_json::from_str(t).unwrap(),
        JsonValue::Str(t) => serde_json::Value::String(t.clone()),
        JsonValue::Array(a) => serde_json::Value::Array(a.iter().map(to_serde).collect()),
        JsonValue::Object(m) => {
            serde_json::Value::Object(m.iter().map(|(k, x)| (k.clone(), to_serde(x))).collect())
        }
    }
}

fn from_serde(v: &serde_json::Value) -> JsonValue {
    match v {
        serde_json::Value::Null => JsonValue::Null,
        serde_json::Value::Bool(b) => JsonValue::Bool(*b),
        serde_json::Value::Number(n) => match (n.as_u64(), n.as_i64()) {
            (Some(u), _) => JsonValue::Number(JsonNumber::PosInt(u)),
            (None, Some(i)) => JsonValue::Number(JsonNumber::NegInt(i)),
            (None, None) => JsonValue::Number(JsonNumber::Float(n.to_string())),
        },
        serde_json::Value::String(t) => JsonValue::Str(t.clone()),
        serde_json::Value::Array(a) => JsonValue::Array(a.iter().map(from_serde).collect()),
        serde_json::Value::Object(m) => {
            JsonValue::Object(m.iter().map(|(k, x)| (k.clone(), from_serde(x))).collect())
        }
    }
}

fn provider(id: i64, name: &str, base: &str, env: &str, key: Option<&str>, active: bool) -> Provider {
    Provider {
        id,
        name: s(name),
        base_url: s(base),
        api_key_env: s(env),
        proxy_mode: s("direct"),
        proxy_url: None,
        auth_header: None,
        api_key_value: key.map(s),
        billing_type: s("pay_per_use"),
        is_active: active,
        compress_enabled: false,
        created_at: s(""),
        updated_at: s(""),
    }
}

fn model(id: i64, provider_id: i64, model_id: &str, display: Option<&str>, auth: &str, cfg: Option<&str>) -> Model {
    Model {
        id,
        provider_id,
        model_id: s(model_id),
        display_name: display.map(s),
        auth_type: s(auth),
        is_default: false,
        config_json: cfg.map(s),
        created_at: s(""),
    }
}

fn presets() -> Vec<ProviderPreset> {
    agentbox_presets()
}

fn agentbox_presets() -> Vec<ProviderPreset> {
    let v = parse(agentbox::presets::DEFAULT_PRESETS);
    v.as_array()
        .unwrap()
        .iter()
        .map(|p| ProviderPreset {
            name: s(p["name"].as_str().unwrap()),
            base_url: s(p["baseUrl"].as_str().unwrap()),
            env_prefix: s(p["envPrefix"].as_str().unwrap()),
            proxy_mode: p["proxyMode"].as_str().map(s),
            billing_type: p["billingType"].as_str().map(s),
            auth_header: p["authHeader"].as_str().map(s),
            models: p["models"]
                .as_array()
                .unwrap()
                .iter()
                .map(|m| agentbox::presets::ModelPreset {
                    id: s(m["id"].as_str().unwrap()),
                    name: s(m["name"].as_str().unwrap()),
                    auth_type: m["authType"].as_array().unwrap().iter().map(|a| s(a.as_str().unwrap())).collect(),
                    context_window_size: m["contextWindowSize"].as_u64(),
                    max_output_tokens: m["maxOutputTokens"].as_u64(),
                    input_modalities: m["inputModalities"]
                        .as_array()
                        .map(|a| a.iter().map(|x| s(x.as_str().unwrap())).collect()),
                    thinking: None,
                })
                .collect(),
        })
        .collect()
}

#[test]
fn test_strip_line_comment() {
    let input = "{\"key\": \"value\" // comment\n}";
    let stripped = strip_jsonc_comments(input);
    let v = parse(&stripped);
    assert_eq!(v["key"], "value");
}

#[test]
fn test_strip_block_comment() {
    let input = "/* block */ {\"key\": \"value\"}";
    let stripped = strip_jsonc_comments(input);
    let v = parse(&stripped);
    assert_eq!(v["key"], "value");
}

#[test]
fn test_strip_comment_in_string() {
    let input = "{\"url\": \"http://example.com // not a comment\"}";
    let stripped = strip_jsonc_comments(input);
    let v = parse(&stripped);
    assert_eq!(v["url"], "http://example.com // not a comment");
}

#[test]
fn strip_keeps_escaped_quote_and_unterminated_block() {
    assert_eq!(strip_jsonc_comments("\"a\\\"//b\" // c"), "\"a\\\"//b\" ");
    assert_eq!(strip_jsonc_comments("1 /* open"), "1 ");
    assert_eq!(strip_jsonc_comments("x//y\nz"), "x\nz");
    assert_eq!(strip_jsonc_comments("no comments here"), "no comments here");
}

#[test]
fn test_sync_providers_empty_db() {
    let result = sync_providers_to_settings(from_serde(&parse("{}")), &Ok(vec![]), &Ok(vec![]), &presets());
    assert!(result.validation.valid);
    let settings = to_serde(&result.settings.unwrap());
    assert_eq!(settings["modelProviders"], parse("{}"));
}

#[test]
fn test_sync_providers_with_data() {
    let ps = vec![provider(1, "openai", "https://api.openai.com", "OPENAI_API_KEY", None, true)];
    let ms = vec![model(1, 1, "gpt-4o", Some("GPT-4o"), "[\"openai\"]", None)];
    let result = sync_providers_to_settings(JsonValue::Null, &Ok(ps), &Ok(ms), &presets());
    let settings = to_serde(&result.settings.unwrap());
    let openai = &settings["modelProviders"]["openai"];
    assert!(openai.is_array());
    assert_eq!(openai[0]["id"], "gpt-4o");
    assert_eq!(openai[0]["baseUrl"], "https://api.openai.com");
    assert_eq!(openai[0]["envKey"], "OPENAI_API_KEY");
}

#[test]
fn test_sync_always_uses_preset_base_url() {
    let mut p = provider(1, "openai-proxy", "https://api.openai.com", "OPENAI_API_KEY", None, true);
    p.proxy_mode = s("system");
    let ms = vec![model(1, 1, "gpt-4o", None, "[\"openai\"]", None)];
    let result = sync_providers_to_settings(JsonValue::Null, &Ok(vec![p]), &Ok(ms), &presets());
    let settings = to_serde(&result.settings.unwrap());
    assert_eq!(settings["modelProviders"]["openai"][0]["baseUrl"], "https://api.openai.com");
}

#[test]
fn sync_injects_custom_header_and_env_and_dedups() {
    let ps = vec![provider(7, "mimo", "https://api.xiaomimimo.com/", "MIMO_API_KEY", Some("sk-1"), true)];
    let ms = vec![
        model(1, 7, "mimo-v2.5", None, "[\"anthropic\"]", Some("{\"contextWindowSize\":5}")),
        model(2, 7, "mimo-v2.5", Some("again"), "anthropic", None),
    ];
    let settings_in = from_serde(&parse("{\"other\":1,\"env\":{\"KEEP\":\"x\"}}"));
    let result = sync_providers_to_settings(settings_in, &Ok(ps), &Ok(ms), &presets());
    assert!(result.validation.valid);
    let settings = to_serde(&result.settings.unwrap());
    let list = settings["modelProviders"]["anthropic"].as_array().unwrap();
    assert_eq!(list.len(), 1);
    assert_eq!(list[0]["name"], "again");
    assert_eq!(list[0]["baseUrl"], "https://api.xiaomimimo.com");
    assert_eq!(list[0]["generationConfig"]["customHeaders"]["api-key"], "sk-1");
    assert_eq!(settings["env"]["MIMO_API_KEY"], "sk-1");
    assert_eq!(settings["env"]["KEEP"], "x");
    assert_eq!(settings["other"], 1);
}

#[test]
fn validation_reports_errors_and_warnings() {
    let ps = vec![
        provider(1, "a", "", "", None, true),
        provider(2, "b", "https://b", "B_KEY", None, true),
        provider(3, "c", "", "", None, false),
    ];
    let ms = vec![model(1, 2, "", None, "openai", None), model(2, 9, "", None, "openai", None)];
    let settings = from_serde(&parse("{\"env\":{\"B_KEY\":\"\"}}"));
    let v = validate_providers(&Ok(ps), &Ok(ms), &settings);
    assert!(!v.valid);
    assert_eq!(v.errors.len(), 4);
    assert_eq!(v.errors[0].field, "api_key_env");
    assert_eq!(v.errors[0].message, "供应商 'a' 的环境变量名为空");
    assert_eq!(v.errors[1].field, "base_url");
    assert_eq!(v.errors[2].message, "供应商 'b' 的模型 ID 为空");
    assert_eq!(v.errors[3].message, "供应商 'unknown' 的模型 ID 为空");
    assert_eq!(v.warnings.len(), 1);
    assert_eq!(v.warnings[0].env_key, "B_KEY");
    let db_err = validate_providers(&Err(s("locked")), &Ok(vec![]), &settings);
    assert!(!db_err.valid);
    assert_eq!(db_err.errors[0].field, "database");
    assert_eq!(db_err.errors[0].message, "locked");
    let r = sync_providers_to_settings(JsonValue::Null, &Err(s("locked")), &Ok(vec![]), &presets());
    assert!(r.settings.is_none());
}

#[test]
fn env_from_stored_keys() {
    let ps = vec![
        provider(1, "a", "u", "A", Some("1"), true),
        provider(2, "b", "u", "B", Some(""), true),
        provider(3, "c", "u", "C", Some("3"), false),
        provider(4, "d", "u", "A", Some("4"), true),
    ];
    let env = build_env_from_db(&Ok(ps));
    assert_eq!(env.len(), 1);
    assert_eq!(env[0].0, "A");
    assert!(matches!(&env[0].1, JsonValue::Str(v) if v == "4"));
    assert!(build_env_from_db(&Err(s("x"))).is_empty());
}

#[test]
fn effective_base_url_prefers_exact_then_host() {
    let pr = presets();
    let p = provider(1, "x", "https://opencode.ai/zen/go/v1/", "K", None, true);
    assert_eq!(get_effective_base_url(&p, "openai", &pr), "https://opencode.ai/zen/go/v1");
    assert_eq!(get_effective_base_url(&p, "anthropic", &pr), "https://opencode.ai/zen/go");
    assert_eq!(get_effective_base_url(&p, "gemini", &pr), "https://opencode.ai/zen/go/v1/");
}

#[test]
fn auth_type_list_forms() {
    assert_eq!(auth_type_list("[\"openai\",\"anthropic\"]"), vec![s("openai"), s("anthropic")]);
    assert_eq!(auth_type_list("openai"), vec![s("openai")]);
    assert_eq!(auth_type_list("[1]"), vec![s("[1]")]);
}

#[test]
fn set_by_path_sets_creates_and_removes() {
    let mut root = from_serde(&parse("{\"ui\":{\"theme\":\"dark\"},\"x\":3}"));
    set_by_path(&mut root, "ui.statusLine.type", JsonValue::Str(s("command")));
    set_by_path(&mut root, "x.y", JsonValue::Bool(true));
    set_by_path(&mut root, "ui.theme", JsonValue::Null);
    let v = to_serde(&root);
    assert_eq!(v["ui"]["statusLine"]["type"], "command");
    assert_eq!(v["x"]["y"], true);
    assert!(v["ui"].get("theme").is_none());
    let before = to_serde(&root);
    set_by_path(&mut root, "missing.deeper.key", JsonValue::Null);
    set_by_path(&mut root, "x.y.z", JsonValue::Null);
    assert_eq!(to_serde(&root), before);
    let mut arr = from_serde(&parse("[1]"));
    set_by_path(&mut arr, "a", JsonValue::Bool(true));
    assert_eq!(to_serde(&arr), parse("[1]"));
}

#[test]
fn settings_text_with_comments_parses() {
    let v = parse_settings("{\"model\": {\"name\": \"qwen\"} // chosen\n}").unwrap();
    assert_eq!(v.get("model").and_then(|m| m.get("name")).and_then(|n| n.as_str()), Some("qwen"));
}

#[test]
fn unreadable_settings_text_reports_the_parser_message() {
    let e = match parse_settings("{\"a\": }") {
        Err(e) => e,
        Ok(_) => panic!("a text that does not parse was read"),
    };
    assert!(!e.is_empty());
    assert_eq!(e, serde_json::from_str::<serde_json::Value>("{\"a\": }").unwrap_err().to_string());
}
