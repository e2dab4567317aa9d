use agentbox::client_pool::{choose_proxy, env_setting, needs_rebuild, CachedSetting, ProxyChoice, ProxySnapshot};
use agentbox::compression::{compression_result, endpoint_to_provider, CompressFormat, CompressOutcome};
use agentbox::installer::{is_stable_tag, latest_stable_tag, npm_lifecycle_args, npm_outcome, tool_version};
use agentbox::json::JsonValue;
use agentbox::skills::{plan_install, skills_from_search};

fn s(t: &str) -> String {
    t.to_string()
}

fn snap(h: Option<&str>) -> ProxySnapshot {
    ProxySnapshot { http_proxy: h.map(s), https_proxy: None, no_proxy: None }
}

#[test]
fn test_endpoint_to_provider() {
    assert_eq!(endpoint_to_provider("/v1/messages"), CompressFormat::Anthropic);
    assert_eq!(endpoint_to_provider("/v1/chat/completions"), CompressFormat::OpenAiChat);
    assert_eq!(endpoint_to_provider("/v1/responses"), CompressFormat::OpenAiResponses);
    assert_eq!(endpoint_to_provider("/chat/completions"), CompressFormat::OpenAiChat);
}

#[test]
fn compression_falls_back_to_original() {
    let r = compression_result(b"orig", None);
    assert_eq!(r.body, b"orig".to_vec());
    assert_eq!(r.tokens_saved, 0);
    let kept = compression_result(
        b"orig",
        Some(CompressOutcome { body: None, tokens_saved: 3, bytes_saved: 9, strategies: vec![s("dedup")] }),
    );
    assert_eq!(kept.body, b"orig".to_vec());
    assert_eq!(kept.tokens_saved, 3);
    let new = compression_result(
        b"orig",
        Some(CompressOutcome { body: Some(b"new".to_vec()), tokens_saved: 1, bytes_saved: 1, strategies: vec![] }),
    );
    assert_eq!(new.body, b"new".to_vec());
}

#[test]
fn client_rebuild_decisions() {
    let cached = Some(CachedSetting { proxy_mode: s("system"), proxy_url: None, env: snap(Some("http://p")) });
    assert!(!needs_rebuild(&cached, "system", &None, &snap(Some("http://p"))));
    assert!(needs_rebuild(&cached, "system", &None, &snap(None)));
    assert!(needs_rebuild(&cached, "direct", &None, &snap(Some("http://p"))));
    let direct = Some(CachedSetting { proxy_mode: s("direct"), proxy_url: None, env: snap(Some("a")) });
    assert!(!needs_rebuild(&direct, "direct", &None, &snap(Some("b"))));
    assert!(needs_rebuild(&None, "direct", &None, &snap(None)));
}

#[test]
fn proxy_choices() {
    assert!(matches!(choose_proxy("direct", &Some(s("x"))), ProxyChoice::NoProxy));
    match choose_proxy("custom", &Some(s("http://p:1"))) {
        ProxyChoice::Custom { url } => assert_eq!(url, "http://p:1"),
        _ => panic!("custom expected"),
    }
    assert!(matches!(choose_proxy("custom", &None), ProxyChoice::SystemDefault));
    assert!(matches!(choose_proxy("system", &None), ProxyChoice::SystemDefault));
    assert_eq!(env_setting(Some(s("A")), Some(s("b"))), Some(s("A")));
    assert_eq!(env_setting(None, Some(s("b"))), Some(s("b")));
}

#[test]
fn stable_tags() {
    assert!(is_stable_tag("v1.2.3"));
    assert!(is_stable_tag("v10.20.30"));
    assert!(!is_stable_tag("v1.2.3-beta"));
    assert!(!is_stable_tag("v1.2"));
    assert!(!is_stable_tag("v1..3"));
    assert!(!is_stable_tag("1.2.3"));
    assert!(!is_stable_tag(""));
}

#[test]
fn latest_stable_release() {
    let rel = |t: &str| JsonValue::Object(vec![(s("tag_name"), JsonValue::Str(s(t)))]);
    let list = vec![rel("v2.0.0-rc1"), JsonValue::Null, rel("v1.9.0"), rel("v1.8.0")];
    assert_eq!(latest_stable_tag(&list).ok().unwrap(), "v1.9.0");
    assert_eq!(latest_stable_tag(&vec![rel("nightly")]).err().unwrap(), "no stable release found");
}

#[test]
fn tool_versions_and_npm() {
    let t = tool_version("node", true, " v20.1.0\n").unwrap();
    assert_eq!(t.path, "node");
    assert_eq!(t.version, "v20.1.0");
    assert!(tool_version("node", true, "  ").is_none());
    assert!(tool_version("node", false, "v1").is_none());
    assert_eq!(
        npm_lifecycle_args("install", &Some(s("https://r"))),
        vec![s("/C"), s("npm"), s("install"), s("-g"), s("@qwen-code/qwen-code@latest"), s("--registry=https://r")]
    );
    assert_eq!(npm_outcome("update", true, Some(0)).ok().unwrap(), "npm update completed successfully");
    assert_eq!(npm_outcome("install", false, Some(1)).err().unwrap(), "npm install failed with exit code: Some(1)");
    assert_eq!(npm_outcome("install", false, None).err().unwrap(), "npm install failed with exit code: None");
}

#[test]
fn skill_search_answers() {
    let entry = |source: &str, name: &str| {
        JsonValue::Object(vec![
            (s("source"), JsonValue::Str(s(source))),
            (s("name"), JsonValue::Str(s(name))),
            (s("description"), JsonValue::Str(s("d"))),
        ])
    };
    let body = JsonValue::Object(vec![(
        s("skills"),
        JsonValue::Array(vec![entry("owner/repo", "pdf"), entry("skills.sh/x", "no"), entry("single", "no"), entry("o/r/extra", "web")]),
    )]);
    let r = skills_from_search(&body, &vec![s("web")]);
    assert_eq!(r.len(), 2);
    assert_eq!(r[0].key, "owner/repo:pdf");
    assert_eq!(r[0].readme_url, Some(s("https://github.com/owner/repo")));
    assert_eq!(r[0].repo_branch, "main");
    assert!(!r[0].installed);
    assert_eq!(r[1].repo_name, "r");
    assert!(r[1].installed);
    assert_eq!(skills_from_search(&JsonValue::Null, &vec![]).len(), 0);
}

#[test]
fn skill_install_plans() {
    let p = plan_install("o", "repo", "main", "");
    assert_eq!(p.zip_url, "https://github.com/o/repo/archive/refs/heads/main.zip");
    assert_eq!(p.extracted_dir, "repo-main");
    assert_eq!(p.source_subdir, None);
    assert_eq!(p.target_name, "repo");
    let q = plan_install("o", "repo", "dev", "skills/pdf");
    assert_eq!(q.source_subdir, Some(s("skills/pdf")));
    assert_eq!(q.target_name, "skills/pdf");
    assert_eq!(plan_install("o", "repo", "dev", "repo").source_subdir, None);
}
