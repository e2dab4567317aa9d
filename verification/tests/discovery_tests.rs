use agentbox::discovery::{discover_existing_providers, extract_configured_model_ids, parse_env_line};
use agentbox::preset_sync::sync_preset_models_to_settings;
use agentbox::json::{JsonNumber, JsonValue};
use agentbox::presets::{ModelPreset, ProviderPreset};

fn s(t: &str) -> String {
    t.to_string()
}

fn from_serde(v: &serde_json::Value) -> JsonValue {
    match v {
        serde_json::Value::Null => JsonValue::Null,
        serde_json::Value::Bool(b) => JsonValue::Bool(*b),
        serde_json::Value::Number(n) => match (n.as_u64(), n.as_i64()) {
            (Some(u), _) => JsonValue::Number(JsonNumber::PosInt(u)),
            (None, Some(i)) => JsonValue::Number(JsonNumber::NegInt(i)),
            (None, None) => JsonValue::Number(JsonNumber::Float(n.to_string())),
        },
        serde_json::Value::String(t) => JsonValue::Str(t.clone()),
        serde_json::Value::Array(a) => JsonValue::Array(a.iter().map(from_serde).collect()),
        serde_json::Value::Object(m) => {
            JsonValue::Object(m.iter().map(|(k, x)| (k.clone(), from_serde(x))).collect())
        }
    }
}

fn to_serde(v: &JsonValue) -> serde_json::Value {
    match v {
        JsonValue::Null => serde_json::Value::Null,
        JsonValue::Bool(b) => serde_json::Value::Bool(*b),
        JsonValue::Number(JsonNumber::PosInt(u)) => serde_json::Value::from(*u),
        JsonValue::Number(JsonNumber::NegInt(i)) => serde_json::Value::from(*i),
        JsonValue::Number(JsonNumber::Float(t)) => serde_json::from_str(t).unwrap(),
        JsonValue::Str(t) => serde_json::Value::String(t.clone()),
        JsonValue::Array(a) => serde_json::Value::Array(a.iter().map(to_serde).collect()),
        JsonValue::Object(m) => {
            serde_json::Value::Object(m.iter().map(|(k, x)| (k.clone(), to_serde(x))).collect())
        }
    }
}

fn settings(t: &str) -> JsonValue {
    from_serde(&serde_json::from_str::<serde_json::Value>(t).unwrap())
}

fn pm(id: &str, auth: &[&str], cws: Option<u64>, mot: Option<u64>) -> ModelPreset {
    ModelPreset {
        id: s(id),
        name: format!("{} name", id),
        auth_type: auth.iter().map(|a| s(a)).collect(),
        context_window_size: cws,
        max_output_tokens: mot,
        input_modalities: None,
        thinking: None,
    }
}

fn preset(name: &str, base: &str, header: Option<&str>, models: Vec<ModelPreset>) -> ProviderPreset {
    ProviderPreset {
        name: s(name),
        base_url: s(base),
        env_prefix: s("PREFIX_KEY"),
        proxy_mode: None,
        billing_type: None,
        auth_header: header.map(s),
        models,
    }
}

#[test]
fn extract_ids_from_normal_settings() {
    let st = settings(r#"{"modelProviders":{"openai":[{"id":"gpt-4o","name":"GPT-4o","baseUrl":"https://api.openai.com/v1"},{"id":"gpt-4o-mini","name":"GPT-4o Mini","baseUrl":"https://api.openai.com/v1"}],"anthropic":[{"id":"anthropic-sonnet-4-20250514","name":"Sonnet","baseUrl":"https://api.anthropic.com"}]}}"#);
    let ids = extract_configured_model_ids(&st);
    assert_eq!(ids, vec!["anthropic-sonnet-4-20250514", "gpt-4o", "gpt-4o-mini"]);
}

#[test]
fn extract_ids_deduplicates_same_id_across_protocols() {
    let st = settings(r#"{"modelProviders":{"openai":[{"id":"mimo-v2.5","name":"MiMo","baseUrl":"https://api.xiaomimimo.com/v1"}],"anthropic":[{"id":"mimo-v2.5","name":"MiMo","baseUrl":"https://api.xiaomimimo.com"}]}}"#);
    let ids = extract_configured_model_ids(&st);
    assert_eq!(ids, vec!["mimo-v2.5"]);
}

#[test]
fn extract_ids_empty_when_no_model_providers() {
    let ids = extract_configured_model_ids(&settings("{}"));
    assert!(ids.is_empty());
}

#[test]
fn extract_ids_empty_when_providers_empty() {
    let ids = extract_configured_model_ids(&settings(r#"{"modelProviders":{}}"#));
    assert!(ids.is_empty());
}

#[test]
fn extract_ids_skips_empty_id() {
    let st = settings(r#"{"modelProviders":{"openai":[{"id":"","name":"empty"},{"id":"gpt-4o","name":"GPT-4o"},{"name":"no-id-field"}]}}"#);
    let ids = extract_configured_model_ids(&st);
    assert_eq!(ids, vec!["gpt-4o"]);
}

#[test]
fn extract_ids_sorted_alphabetically() {
    let st = settings(r#"{"modelProviders":{"openai":[{"id":"zzz-last"},{"id":"aaa-first"},{"id":"mmm-middle"}]}}"#);
    let ids = extract_configured_model_ids(&st);
    assert_eq!(ids, vec!["aaa-first", "mmm-middle", "zzz-last"]);
}

#[test]
fn extract_ids_from_multiple_protocols() {
    let st = settings(r#"{"modelProviders":{"openai":[{"id":"deepseek-v4-pro"},{"id":"kimi-k2.7"}],"anthropic":[{"id":"minimax-m3"},{"id":"qwen3.7-max"}]}}"#);
    let ids = extract_configured_model_ids(&st);
    assert_eq!(ids, vec!["deepseek-v4-pro", "kimi-k2.7", "minimax-m3", "qwen3.7-max"]);
}

#[test]
fn env_lines_are_read_like_dotenv() {
    assert_eq!(parse_env_line("  KEY = value  "), Some((s("KEY"), s("value"))));
    assert_eq!(parse_env_line("# comment=1"), None);
    assert_eq!(parse_env_line("EMPTY="), None);
    assert_eq!(parse_env_line("NOEQUALS"), None);
    assert_eq!(parse_env_line("A=b=c"), Some((s("A"), s("b=c"))));
}

#[test]
fn discover_groups_by_base_url_and_completes_from_template() {
    let presets = vec![preset(
        "Acme",
        "https://api.acme.com/v1",
        None,
        vec![pm("a1", &["openai"], Some(1000), None), pm("a2", &["openai"], None, Some(99)), pm("a3", &["anthropic"], None, None)],
    )];
    let st = settings(r#"{"env":{"ACME_KEY":"k"},"modelProviders":{"openai":[
        {"id":"a1","name":"First","baseUrl":"https://api.acme.com/v1","envKey":"ACME_KEY","generationConfig":{"x":1}},
        {"id":"a1","baseUrl":"https://api.acme.com/v1"},
        {"id":"z","baseUrl":"https://other.io/v1","envKey":"OTHER"},
        {"id":"y","baseUrl":""}
    ]}}"#);
    let found = discover_existing_providers(&st, &vec![], Some("OTHER=secret\n"), &presets);
    assert_eq!(found.len(), 2);
    let acme = &found[0];
    assert_eq!(acme.name, "Acme");
    assert!(acme.is_preset);
    assert_eq!(acme.preset_name.as_deref(), Some("Acme"));
    assert!(acme.has_key);
    assert_eq!(acme.models.len(), 2);
    assert_eq!(acme.models[0].id, "a1");
    assert_eq!(acme.models[0].name, "First");
    assert!(!acme.models[0].from_preset);
    let cfg: serde_json::Value = serde_json::from_str(acme.models[0].config_json.as_deref().unwrap()).unwrap();
    assert_eq!(cfg["x"], 1);
    assert_eq!(cfg["contextWindowSize"], 1000);
    assert_eq!(acme.models[1].id, "a2");
    assert!(acme.models[1].from_preset);
    let cfg2: serde_json::Value = serde_json::from_str(acme.models[1].config_json.as_deref().unwrap()).unwrap();
    assert_eq!(cfg2["samplingParams"]["max_tokens"], 99);
    let other = &found[1];
    assert_eq!(other.name, "other.io");
    assert!(!other.is_preset);
    assert!(other.has_key);
    assert_eq!(other.models[0].auth_type, vec![s("openai")]);
}

#[test]
fn discover_without_model_providers_is_empty() {
    assert!(discover_existing_providers(&settings("{}"), &vec![], None, &[]).is_empty());
}

#[test]
fn preset_models_fill_missing_and_correct_existing() {
    let presets = vec![preset(
        "Acme",
        "https://api.acme.com/anthropic",
        Some("x-api-key"),
        vec![pm("a1", &["anthropic"], Some(500), None), pm("a2", &["anthropic"], None, None), pm("o1", &["openai"], None, None)],
    )];
    let mut st = settings(r#"{"env":{"ACME":"sk-9"},"modelProviders":{"anthropic":[
        {"id":"a1","name":"A1","baseUrl":"https://api.acme.com/anthropic","envKey":"ACME","generationConfig":{"contextWindowSize":1,"samplingParams":{"temperature":0.5},"modalities":{"image":true}}}
    ],"other":3}}"#);
    let n = sync_preset_models_to_settings(&mut st, None, &presets);
    assert_eq!(n, 1);
    let v = to_serde(&st);
    let list = v["modelProviders"]["anthropic"].as_array().unwrap();
    assert_eq!(list.len(), 2);
    assert_eq!(list[0]["generationConfig"]["contextWindowSize"], 500);
    assert_eq!(list[0]["generationConfig"]["samplingParams"]["temperature"], 0.5);
    assert!(list[0]["generationConfig"]["samplingParams"].get("max_tokens").is_none());
    assert_eq!(list[0]["generationConfig"]["modalities"]["image"], true);
    assert_eq!(list[0]["name"], "A1");
    assert_eq!(list[1]["id"], "a2");
    assert_eq!(list[1]["name"], "a2 name");
    assert_eq!(list[1]["envKey"], "ACME");
    assert_eq!(list[1]["generationConfig"]["customHeaders"]["x-api-key"], "sk-9");
    assert_eq!(v["modelProviders"]["other"], 3);
    let again = sync_preset_models_to_settings(&mut st, None, &presets);
    assert_eq!(again, 0);
}

#[test]
fn preset_models_without_model_providers_change_nothing() {
    let mut st = settings(r#"{"a":1}"#);
    assert_eq!(sync_preset_models_to_settings(&mut st, None, &[]), 0);
    assert_eq!(to_serde(&st), serde_json::from_str::<serde_json::Value>(r#"{"a":1}"#).unwrap());
}
