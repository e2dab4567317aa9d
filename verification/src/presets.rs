use vstd::prelude::*;

use crate::json::JsonValue;

verus! {

/// The provider templates built into the application, as JSON.
pub const DEFAULT_PRESETS: &'static str = r#"[
  {
    "name": "OpenAI",
    "baseUrl": "https://api.openai.com",
    "envPrefix": "OPENAI_API_KEY",
    "proxyMode": "system",
    "billingType": "pay_per_use",
    "authHeader": null,
    "models": [
      { "id": "gpt-4o", "name": "GPT-4o", "authType": ["openai"], "contextWindowSize": 128000, "maxOutputTokens": 16384 },
      { "id": "gpt-4o-mini", "name": "GPT-4o Mini", "authType": ["openai"], "contextWindowSize": 128000, "maxOutputTokens": 16384 }
    ]
  },
  {
    "name": "Xiaomi MiMo (OpenAI)",
    "baseUrl": "https://api.xiaomimimo.com/v1",
    "envPrefix": "MIMO_API_KEY",
    "proxyMode": "system",
    "billingType": "pay_per_use",
    "authHeader": null,
    "models": [
      { "id": "mimo-v2.5", "name": "MiMo V2.5", "authType": ["openai"] }
    ]
  },
  {
    "name": "Xiaomi MiMo (Anthropic)",
    "baseUrl": "https://api.xiaomimimo.com",
    "envPrefix": "MIMO_API_KEY",
    "proxyMode": "system",
    "billingType": "pay_per_use",
    "authHeader": "api-key",
    "models": [
      { "id": "mimo-v2.5", "name": "MiMo V2.5", "authType": ["anthropic"] }
    ]
  },
  {
    "name": "OpenCode Go (OpenAI)",
    "baseUrl": "https://opencode.ai/zen/go/v1",
    "envPrefix": "OPENCODE_API_KEY",
    "proxyMode": "system",
    "billingType": "plan",
    "authHeader": null,
    "models": [
      { "id": "glm-5.1", "name": "GLM 5.1", "authType": ["openai"], "maxOutputTokens": 131072 },
      { "id": "kimi-k2.6", "name": "Kimi K2.6", "authType": ["openai"], "maxOutputTokens": 262144 },
      { "id": "kimi-k2.5", "name": "Kimi K2.5", "authType": ["openai"] },
      { "id": "deepseek-v4-pro", "name": "DeepSeek V4 Pro", "authType": ["openai"], "maxOutputTokens": 384000 },
      { "id": "deepseek-v4-flash", "name": "DeepSeek V4 Flash", "authType": ["openai"] },
      { "id": "mimo-v2.5", "name": "MiMo V2.5", "authType": ["openai"], "contextWindowSize": 1000000, "maxOutputTokens": 128000, "inputModalities": ["text", "image", "audio", "video"] },
      { "id": "mimo-v2.5-pro", "name": "MiMo V2.5 Pro", "authType": ["openai"], "contextWindowSize": 1000000, "maxOutputTokens": 128000 }
    ]
  },
  {
    "name": "OpenCode Go (Anthropic)",
    "baseUrl": "https://opencode.ai/zen/go",
    "envPrefix": "OPENCODE_API_KEY",
    "proxyMode": "system",
    "billingType": "plan",
    "authHeader": "x-api-key",
    "models": [
      { "id": "minimax-m3", "name": "MiniMax M3", "authType": ["anthropic"], "maxOutputTokens": 512000 },
      { "id": "minimax-m2.7", "name": "MiniMax M2.7", "authType": ["anthropic"], "maxOutputTokens": 196608 },
      { "id": "qwen3.7-max", "name": "Qwen3.7 Max", "authType": ["anthropic"] },
      { "id": "qwen3.6-plus", "name": "Qwen3.6 Plus", "authType": ["anthropic"] }
    ]
  }
]"#;

/// A provider template.
pub struct ProviderPreset {
    pub name: String,
    pub base_url: String,
    pub env_prefix: String,
    pub proxy_mode: Option<String>,
    pub billing_type: Option<String>,
    pub auth_header: Option<String>,
    pub models: Vec<ModelPreset>,
}

/// A model of a provider template, with the generation settings that the
/// template fixes.
pub struct ModelPreset {
    pub id: String,
    pub name: String,
    pub auth_type: Vec<String>,
    pub context_window_size: Option<u64>,
    pub max_output_tokens: Option<u64>,
    pub input_modalities: Option<Vec<String>>,
    pub thinking: Option<JsonValue>,
}

/// Version data of a preset file, for update checks.
pub struct PresetsMeta {
    pub version: u32,
    pub updated_at: String,
    pub source: String,
}

/// Name for the value that std's `DefaultHasher`, made with
/// `DefaultHasher::new`, computes for a string slice.
pub uninterp spec fn default_str_hash(s: Seq<char>) -> u64;

/// Hashes a string slice with a fresh `DefaultHasher::new()`; its keys are
/// fixed, so the value depends on the text alone within one build.
#[verifier::external_body]
fn hash_str(s: &str) -> (r: u64)
    ensures
        r == default_str_hash(s@),
{
    let mut h = std::collections::hash_map::DefaultHasher::new();
    std::hash::Hash::hash(s, &mut h);
    std::hash::Hasher::finish(&h)
}

/// The lower-case hexadecimal digit for `d`.
pub open spec fn hex_digit(d: int) -> char {
    if d < 10 {
        ((d + 48) as u8) as char
    } else {
        ((d - 10 + 97) as u8) as char
    }
}

/// Lower-case hexadecimal digits of `n`, without leading zeros (`0` for
/// zero), as `{:x}` writes them.
pub open spec fn hex_text(n: nat) -> Seq<char>
    decreases n,
{
    if n < 16 {
        seq![hex_digit(n as int)]
    } else {
        hex_text(n / 16) + seq![hex_digit((n % 16) as int)]
    }
}

/// The lower-case hexadecimal digit for `d`.
fn hex_digit_exec(d: u64) -> (c: char)
    requires
        d < 16,
    ensures
        c == hex_digit(d as int),
{
    if d < 10 {
        ((d + 48) as u8) as char
    } else {
        ((d - 10 + 97) as u8) as char
    }
}

/// Writes `n` in lower-case hexadecimal.
pub fn to_hex(n: u64) -> (r: String)
    ensures
        r@ == hex_text(n as nat),
    decreases n,
{
    if n < 16 {
        let mut r = String::new();
        r.push(hex_digit_exec(n));
        r
    } else {
        let mut r = to_hex(n / 16);
        r.push(hex_digit_exec(n % 16));
        r
    }
}

/// A short fingerprint of the built-in templates, to compare versions.
pub fn embedded_presets_hash() -> (r: String)
    ensures
        r@ == hex_text(default_str_hash(DEFAULT_PRESETS@) as nat),
{
    to_hex(hash_str(DEFAULT_PRESETS))
}

} // verus!
