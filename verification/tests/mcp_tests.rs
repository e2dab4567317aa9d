use agentbox::json::{JsonNumber, JsonValue};
use agentbox::mcp::{
    baidu_results, content_results, crossref_results, decode_entities, extract_crossref_date, format_academic_results,
    format_search_results, html_to_text, is_private_ip, jina_content, needs_fallback, openalex_results,
    parse_bing_html, plan_academic, plan_fetch, plan_search, plan_tool_call, reconstruct_abstract, replace_text,
    strip_html_tags, tool_reply, tools_to_list, AcademicEngine, AcademicResult, FetchPlan, HostAddress, McpConfig,
    McpTool, SearchPlan, SearchResult, ToolCall,
};

fn s(t: &str) -> String {
    t.to_string()
}

fn from_serde(v: &serde_json::Value) -> JsonValue {
    match v {
        serde_json::Value::Null => JsonValue::Null,
        serde_json::Value::Bool(b) => JsonValue::Bool(*b),
        serde_json::Value::Number(n) => match (n.as_u64(), n.as_i64()) {
            (Some(u), _) => JsonValue::Number(JsonNumber::PosInt(u)),
            (None, Some(i)) => JsonValue::Number(JsonNumber::NegInt(i)),
            (None, None) => JsonValue::Number(JsonNumber::Float(n.to_string())),
        },
        serde_json::Value::String(t) => JsonValue::Str(t.clone()),
        serde_json::Value::Array(a) => JsonValue::Array(a.iter().map(from_serde).collect()),
        serde_json::Value::Object(m) => {
            JsonValue::Object(m.iter().map(|(k, x)| (k.clone(), from_serde(x))).collect())
        }
    }
}

fn to_serde(v: &JsonValue) -> serde_json::Value {
    match v {
        JsonValue::Null => serde_json::Value::Null,
        JsonValue::Bool(b) => serde_json::Value::Bool(*b),
        JsonValue::Number(JsonNumber::PosInt(u)) => serde_json::Value::from(*u),
        JsonValue::Number(JsonNumber::NegInt(i)) => serde_json::Value::from(*i),
        JsonValue::Number(JsonNumber::Float(t)) => serde_json::from_str(t).unwrap(),
        JsonValue::Str(t) => serde_json::Value::String(t.clone()),
        JsonValue::Array(a) => serde_json::Value::Array(a.iter().map(to_serde).collect()),
        JsonValue::Object(m) => {
            serde_json::Value::Object(m.iter().map(|(k, x)| (k.clone(), to_serde(x))).collect())
        }
    }
}

fn sv(t: &str) -> serde_json::Value {
    serde_json::from_str::<serde_json::Value>(t).unwrap()
}

fn j(t: &str) -> JsonValue {
    from_serde(&serde_json::from_str::<serde_json::Value>(t).unwrap())
}

fn config(mode: &str, tavily: Option<&str>) -> McpConfig {
    McpConfig {
        port: 18901,
        auto_inject: false,
        smartsearch_enabled: true,
        academicsearch_enabled: true,
        cleanfetch_enabled: false,
        search_mode: s(mode),
        tavily_api_key: tavily.map(s),
        jina_api_key: None,
        proxy_url: None,
    }
}

#[test]
fn search_results_text() {
    assert_eq!(format_search_results("q", &vec![]), "No results found for \"q\"");
    let r = vec![
        SearchResult { title: s("T1"), url: s("https://a"), snippet: s("S1") },
        SearchResult { title: s("T2"), url: s("https://b"), snippet: s("") },
    ];
    assert_eq!(
        format_search_results("rust", &r),
        "## Search Results for \"rust\"\n\n1. **T1**\n   URL: https://a\n   S1\n\n2. **T2**\n   URL: https://b\n   (no description)\n\n"
    );
}

#[test]
fn academic_results_text() {
    assert_eq!(format_academic_results("q", &vec![]), "No academic results found for \"q\"");
    let long = "x".repeat(310);
    let r = vec![AcademicResult {
        title: s("P"),
        url: s("u"),
        authors: s(""),
        published: s("2024"),
        abstract_text: long,
        source: s("arXiv"),
    }];
    let out = format_academic_results("q", &r);
    let expected = format!(
        "## Academic Results for \"q\"\n\n1. **P**\n   Source: arXiv | Published: 2024\n   Authors: N/A\n   URL: u\n   Abstract: {}...\n\n",
        "x".repeat(300)
    );
    assert_eq!(out, expected);
}

#[test]
fn tools_listed_by_config() {
    assert_eq!(tools_to_list(&None), vec![McpTool::SmartSearch, McpTool::CleanFetch]);
    assert_eq!(tools_to_list(&Some(config("engine", None))), vec![McpTool::SmartSearch, McpTool::AcademicSearch]);
}

#[test]
fn tool_calls_are_planned() {
    match plan_tool_call(&j(r#"{"name":"smartsearch","arguments":{"query":"rust"}}"#)) {
        ToolCall::SmartSearch { query } => assert_eq!(query, "rust"),
        _ => panic!("smartsearch expected"),
    }
    match plan_tool_call(&j(r#"{"name":"smartsearch","arguments":{}}"#)) {
        ToolCall::Invalid { message } => assert_eq!(message, "query parameter is required"),
        _ => panic!("invalid expected"),
    }
    match plan_tool_call(&j(r#"{"name":"academicsearch","arguments":{"query":"q","engines":["arxiv",1,"x"]}}"#)) {
        ToolCall::AcademicSearch { query, engines } => {
            assert_eq!(query, "q");
            assert_eq!(engines, Some(vec![s("arxiv"), s("x")]));
        }
        _ => panic!("academic expected"),
    }
    match plan_tool_call(&j(r#"{"name":"cleanfetch","arguments":{"url":""}}"#)) {
        ToolCall::Invalid { message } => assert_eq!(message, "url parameter is required"),
        _ => panic!("invalid expected"),
    }
    match plan_tool_call(&j(r#"{"name":"other"}"#)) {
        ToolCall::Invalid { message } => assert_eq!(message, "Unknown tool: other"),
        _ => panic!("invalid expected"),
    }
}

#[test]
fn tool_replies() {
    let ok = to_serde(&tool_reply(Ok(s("hi"))));
    assert_eq!(ok, sv(r#"{"content": [{"type": "text", "text": "hi"}]}"#));
    let err = to_serde(&tool_reply(Err(s("boom"))));
    assert_eq!(err, sv(r#"{"content": [{"type": "text", "text": "Error: boom"}], "isError": true}"#));
}

#[test]
fn search_plans() {
    assert!(matches!(plan_search(&None), SearchPlan::BingThenBaidu));
    assert!(matches!(plan_search(&Some(config("bing", None))), SearchPlan::Bing));
    assert!(matches!(plan_search(&Some(config("baidu", None))), SearchPlan::Baidu));
    match plan_search(&Some(config("tavily", Some("k")))) {
        SearchPlan::Tavily { key } => assert_eq!(key, "k"),
        _ => panic!("tavily expected"),
    }
    match plan_search(&Some(config("tavily", Some("")))) {
        SearchPlan::Refused { message } => assert_eq!(message, "Tavily API key not configured"),
        _ => panic!("refusal expected"),
    }
    assert!(needs_fallback(false, 3));
    assert!(needs_fallback(true, 0));
    assert!(!needs_fallback(true, 2));
}

#[test]
fn academic_engine_plans() {
    let all = plan_academic(&None);
    assert_eq!(all.len(), 3);
    assert_eq!(all[2], (AcademicEngine::OpenAlex, s("openalex")));
    let some = plan_academic(&Some(vec![s("crossref"), s("nope"), s("arxiv")]));
    assert_eq!(some, vec![(AcademicEngine::Crossref, s("crossref")), (AcademicEngine::Arxiv, s("arxiv"))]);
}

#[test]
fn fetch_plans() {
    assert!(matches!(plan_fetch(&Some("y".repeat(101)), &None), FetchPlan::UseDirect));
    match plan_fetch(&Some(s("short")), &Some(s("jk"))) {
        FetchPlan::Jina { key } => assert_eq!(key, "jk"),
        _ => panic!("jina expected"),
    }
    match plan_fetch(&None, &Some(s(""))) {
        FetchPlan::Fail { message } => assert_eq!(message, "Fetch failed and no Jina API key configured"),
        _ => panic!("failure expected"),
    }
}

#[test]
fn content_style_results() {
    let body = j(r#"{"results":[{"title":"A","url":"u1","content":"c"},{"title":"B"},{"title":"C","url":"u3"}]}"#);
    let r = content_results(&body, "Invalid Tavily response").ok().unwrap();
    assert_eq!(r.len(), 2);
    assert_eq!(r[0].snippet, "c");
    assert_eq!(r[1].snippet, "");
    assert_eq!(content_results(&j("{}"), "Invalid Tavily response").err().unwrap(), "Invalid Tavily response");
    assert_eq!(jina_content(&j(r#"{"data":{"content":"md"}}"#)).ok().unwrap(), "md");
    assert_eq!(jina_content(&j("{}")).err().unwrap(), "Invalid Jina response");
}

#[test]
fn crossref_items() {
    let item = j(r#"{"title":["Paper"],"URL":"https://doi","author":[{"given":"Ada","family":"L"},{"family":"X"}],"published-print":{"date-parts":[[2024,5,1]]}}"#);
    assert_eq!(extract_crossref_date(&item), "2024-5-1");
    assert_eq!(extract_crossref_date(&j(r#"{"published-online":{"date-parts":[[2023]]}}"#)), "2023");
    assert_eq!(extract_crossref_date(&j("{}")), "");
    let body = j(r#"{"message":{"items":[{"title":["Paper"],"URL":"https://doi","author":[{"given":"Ada","family":"L"},{"family":"X"}]},{"URL":"x"}]}}"#);
    let r = crossref_results(&body).ok().unwrap();
    assert_eq!(r.len(), 1);
    assert_eq!(r[0].authors, "Ada L");
    assert_eq!(r[0].source, "Crossref");
    assert_eq!(crossref_results(&j("{}")).err().unwrap(), "Invalid Crossref response");
}

#[test]
fn openalex_items() {
    assert_eq!(reconstruct_abstract(&j(r#"{"world":[1],"hello":[0],"again":[2,3]}"#)), Some(s("hello world again again")));
    assert_eq!(reconstruct_abstract(&j("[1]")), None);
    let body = j(r#"{"results":[{"title":"W","doi":"","id":"https://openalex/W1","authorships":[{"author":{"display_name":"A"}},{"author":{}}],"publication_date":"2024-01-01","abstract_inverted_index":{"b":[1],"a":[0]}}]}"#);
    let r = openalex_results(&body).ok().unwrap();
    assert_eq!(r[0].url, "https://openalex/W1");
    assert_eq!(r[0].authors, "A");
    assert_eq!(r[0].abstract_text, "a b");
    assert_eq!(r[0].source, "OpenAlex");
}

#[test]
fn html_helpers() {
    assert_eq!(replace_text("a&amp;b&amp;", "&amp;", "&"), "a&b&");
    assert_eq!(decode_entities("&amp;lt; &quot;x&quot; &#39;"), "< \"x\" '");
    assert_eq!(strip_html_tags("  <b>Hi</b> &amp; bye "), Some(s("Hi & bye")));
    assert_eq!(html_to_text("<p>x</p>"), None);
}

#[test]
fn bing_page() {
    let html = r#"<ol><li class="b_algo"><h2><a href="https://r.example/1">First <b>hit</b></a></h2><p class="b_lineclamp2">Snip &amp; more</p></li><li class="b_algo"><h2><a href="https://r.example/2"> </a></h2></li></ol>"#;
    let hits = parse_bing_html(html).unwrap();
    assert_eq!(hits.len(), 1);
    assert_eq!(hits[0].url, "https://r.example/1");
    assert_eq!(hits[0].title, "First hit");
    assert_eq!(hits[0].snippet, "Snip & more");
}

#[test]
fn baidu_page() {
    let body = j(r#"{"feed":{"entry":[{"title":"<em>T</em>","url":"u","abs":"a"},{"url":"v"}]}}"#);
    let r = baidu_results(&body).unwrap().ok().unwrap();
    assert_eq!(r.len(), 1);
    assert_eq!(r[0].title, "T");
    assert_eq!(baidu_results(&j("{}")).unwrap().err().unwrap(), "Invalid Baidu response format");
}

#[test]
fn private_hosts() {
    let v4 = |private: bool| HostAddress::V4 { private, loopback: false, link_local: false, broadcast: false, unspecified: false };
    assert!(is_private_ip("10.0.0.1", &v4(true)));
    assert!(!is_private_ip("8.8.8.8", &v4(false)));
    assert!(is_private_ip("::1", &HostAddress::V6 { loopback: true, unspecified: false }));
    assert!(is_private_ip("localhost", &HostAddress::Name));
    assert!(is_private_ip("printer.local", &HostAddress::Name));
    assert!(is_private_ip("db.internal", &HostAddress::Name));
    assert!(!is_private_ip("example.com", &HostAddress::Name));
}
