use agentbox::json::{JsonNumber, JsonValue};
use agentbox::settings_edit::{inject_statusline, mask_env_vars, register_mcp_server, remove_statusline};

fn from_serde(v: &serde_json::Value) -> JsonValue {
    match v {
        serde_json::Value::Null => JsonValue::Null,
        serde_json::Value::Bool(b) => JsonValue::Bool(*b),
        serde_json::Value::Number(n) => match (n.as_u64(), n.as_i64()) {
            (Some(u), _) => JsonValue::Number(JsonNumber::PosInt(u)),
            (None, Some(i)) => JsonValue::Number(JsonNumber::NegInt(i)),
            (None, None) => JsonValue::Number(JsonNumber::Float(n.to_string())),
        },
        serde_json::Value::String(t) => JsonValue::Str(t.clone()),
        serde_json::Value::Array(a) => JsonValue::Array(a.iter().map(from_serde).collect()),
        serde_json::Value::Object(m) => {
            JsonValue::Object(m.iter().map(|(k, x)| (k.clone(), from_serde(x))).collect())
        }
    }
}

fn to_serde(v: &JsonValue) -> serde_json::Value {
    match v {
        JsonValue::Null => serde_json::Value::Null,
        JsonValue::Bool(b) => serde_json::Value::Bool(*b),
        JsonValue::Number(JsonNumber::PosInt(u)) => serde_json::Value::from(*u),
        JsonValue::Number(JsonNumber::NegInt(i)) => serde_json::Value::from(*i),
        JsonValue::Number(JsonNumber::Float(t)) => serde_json::from_str(t).unwrap(),
        JsonValue::Str(t) => serde_json::Value::String(t.clone()),
        JsonValue::Array(a) => serde_json::Value::Array(a.iter().map(to_serde).collect()),
        JsonValue::Object(m) => {
            serde_json::Value::Object(m.iter().map(|(k, x)| (k.clone(), to_serde(x))).collect())
        }
    }
}

fn sv(t: &str) -> serde_json::Value {
    serde_json::from_str::<serde_json::Value>(t).unwrap()
}

fn j(t: &str) -> JsonValue {
    from_serde(&serde_json::from_str::<serde_json::Value>(t).unwrap())
}

#[test]
fn env_values_are_masked() {
    let st = j(r#"{"env":{"LONG":"sk-1234567890","SHORT":"abc","NUM":5}}"#);
    let m = to_serde(&mask_env_vars(&st).ok().unwrap());
    assert_eq!(m, sv(r#"{"LONG": "sk-1…7890", "SHORT": "••••", "NUM": "••••"}"#));
    assert_eq!(to_serde(&mask_env_vars(&j("{}")).ok().unwrap()), sv("{}"));
    assert_eq!(mask_env_vars(&j(r#"{"env":3}"#)).err().unwrap(), "env is not an object");
}

#[test]
fn mcp_server_registration() {
    let mut st = j(r#"{"a":1}"#);
    register_mcp_server(&mut st, 18901, true);
    assert_eq!(to_serde(&st)["mcpServers"]["websearch"]["httpUrl"], "http://localhost:18901/mcp");
    register_mcp_server(&mut st, 18901, false);
    assert_eq!(to_serde(&st), sv(r#"{"a": 1, "mcpServers": {}}"#));
}

#[test]
fn statusline_set_and_removed() {
    let st = j(r#"{"statusLine":"old","ui":{"theme":"dark"}}"#);
    let out = to_serde(&inject_statusline(&st, "//?/C:/apps/qwen-usage.exe").ok().unwrap());
    assert!(out.get("statusLine").is_none());
    assert_eq!(out["ui"]["theme"], "dark");
    assert_eq!(out["ui"]["statusLine"]["type"], "command");
    assert_eq!(out["ui"]["statusLine"]["command"], "\"C:\\apps\\qwen-usage.exe\" record");
    assert_eq!(inject_statusline(&j("[]"), "x").err().unwrap(), "settings is not a JSON object");
    assert_eq!(inject_statusline(&j(r#"{"ui":1}"#), "x").err().unwrap(), "ui field is not an object");
    let back = to_serde(&remove_statusline(&j(&out.to_string())));
    assert_eq!(back, sv(r#"{"ui": {"theme": "dark"}}"#));
}
