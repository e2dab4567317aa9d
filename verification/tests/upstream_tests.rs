use agentbox::upstream::{build_upstream_url, extract_host};

#[test]
fn test_build_upstream_url_dedup_v1() {
    assert_eq!(
        build_upstream_url("https://api.anthropic.com/v1", "/v1/messages"),
        "https://api.anthropic.com/v1/messages"
    );
    assert_eq!(
        build_upstream_url("https://api.kimi.com/coding/v1", "/v1/messages"),
        "https://api.kimi.com/coding/v1/messages"
    );
}

#[test]
fn test_build_upstream_url_openai_no_dedup() {
    assert_eq!(
        build_upstream_url("https://api.openai.com/v1", "/chat/completions"),
        "https://api.openai.com/v1/chat/completions"
    );
    assert_eq!(
        build_upstream_url("https://opencode.ai/zen/go/v1", "/chat/completions"),
        "https://opencode.ai/zen/go/v1/chat/completions"
    );
    assert_eq!(
        build_upstream_url("https://api.openai.com/v1", "/responses"),
        "https://api.openai.com/v1/responses"
    );
}

#[test]
fn test_build_upstream_url_custom_path() {
    assert_eq!(
        build_upstream_url("https://open.bigmodel.cn/api/coding/paas/v4", "/chat/completions"),
        "https://open.bigmodel.cn/api/coding/paas/v4/chat/completions"
    );
    assert_eq!(
        build_upstream_url("https://maas-token-api.xf-yun.com/v2", "/chat/completions"),
        "https://maas-token-api.xf-yun.com/v2/chat/completions"
    );
}

#[test]
fn test_build_upstream_url_trailing_slash() {
    assert_eq!(
        build_upstream_url("https://api.openai.com/v1/", "/chat/completions"),
        "https://api.openai.com/v1/chat/completions"
    );
}

#[test]
fn upstream_url_without_path_appends_endpoint() {
    assert_eq!(
        build_upstream_url("https://api.openai.com", "/v1/chat/completions"),
        "https://api.openai.com/v1/chat/completions"
    );
    assert_eq!(
        build_upstream_url("https://opencode.ai/zen/go/v1", "/v1/chat/completions"),
        "https://opencode.ai/zen/go/v1/chat/completions"
    );
}

#[test]
fn upstream_url_segment_must_be_whole() {
    assert_eq!(build_upstream_url("https://h.com/v1", "/v10/x"), "https://h.com/v1/v10/x");
    assert_eq!(build_upstream_url("https://h.com/v1", "/v1"), "https://h.com/v1/v1");
}

#[test]
fn extract_host_variants() {
    assert_eq!(extract_host("https://api.openai.com/v1"), "api.openai.com");
    assert_eq!(extract_host("  http://localhost:8080/path "), "localhost");
    assert_eq!(extract_host("example.com/x"), "example.com");
    assert_eq!(extract_host(""), "");
}
