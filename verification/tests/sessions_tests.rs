use agentbox::sessions::{
    get_session_detail, get_session_messages_paged, parse_session_stats, quick_scan_header, read_session,
    sort_sessions, SessionInfo,
};

fn lines(ls: &[&str]) -> Vec<String> {
    ls.iter().map(|l| l.to_string()).collect()
}

fn sample() -> Vec<String> {
    lines(&[
        r#"{"type":"user","uuid":"u1","timestamp":"2026-01-02T10:00:00.000Z","message":{"parts":[{"text":"Hello there"}]}}"#,
        "not json",
        r#"{"type":"assistant","uuid":"a1","timestamp":"2026-01-02T10:05:00.000Z","model":"qwen3","usageMetadata":{"promptTokenCount":100,"candidatesTokenCount":20,"cachedContentTokenCount":5},"message":{"parts":[{"thought":true,"text":"thinking..."},{"text":"Answer"},{"functionCall":{"name":"read_file","args":{}}},{"functionCall":{"name":"skill","args":{"skill":"pdf"}}}]}}"#,
        r#"{"type":"assistant","uuid":"a2","timestamp":"2026-01-02T11:07:00.000Z","model":"glm","usageMetadata":{"promptTokenCount":50,"candidatesTokenCount":10},"message":{"parts":[{"functionCall":{"name":"read_file","args":{}}},{"functionCall":{"name":"agent","args":{}}}]}}"#,
        r#"{"type":"system","uuid":"s1","timestamp":"2026-01-02T11:08:00.000Z","content":"done"}"#,
    ])
}

#[test]
fn detail_counts_messages_tokens_and_calls() {
    let d = get_session_detail(&sample());
    assert_eq!(d.message_count, 4);
    assert_eq!(d.models, "glm, qwen3");
    assert_eq!(d.input_tokens, 150);
    assert_eq!(d.output_tokens, 30);
    assert_eq!(d.duration, "1h 8m");
    assert_eq!(d.tool_calls.len(), 1);
    assert_eq!(d.tool_calls[0].name, "read_file");
    assert_eq!(d.tool_calls[0].count, 2);
    assert_eq!(d.skill_calls[0].name, "pdf");
    assert_eq!(d.agent_calls[0].name, "general-purpose");
    assert_eq!(d.messages[1].thinking.as_deref(), Some("thinking..."));
    assert_eq!(d.messages[1].text, "Answer");
    assert!(d.messages[1].has_tool_use);
    assert_eq!(d.messages[3].text, "done");
}

#[test]
fn paging_takes_the_newest_first() {
    let all = sample();
    let p = get_session_messages_paged(&all, 0, 2);
    assert_eq!(p.total_count, 4);
    assert_eq!(p.messages.len(), 2);
    assert_eq!(p.messages[0].uuid, "a2");
    assert_eq!(p.messages[1].uuid, "s1");
    assert!(p.has_older);
    assert!(!p.has_newer);
    let q = get_session_messages_paged(&all, 2, 5);
    assert_eq!(q.messages.len(), 2);
    assert_eq!(q.messages[0].uuid, "u1");
    assert!(!q.has_older);
    assert!(q.has_newer);
}

#[test]
fn stats_of_a_session() {
    let st = parse_session_stats(&sample());
    assert_eq!(st.message_count, 4);
    assert_eq!(st.user_messages, 1);
    assert_eq!(st.assistant_msgs, 2);
    assert_eq!(st.input_tokens, 150);
    assert_eq!(st.cache_read_tokens, 5);
    assert_eq!(st.started_at, "2026-01-02T10:00:00.000Z");
    assert_eq!(st.ended_at, "2026-01-02T11:08:00.000Z");
    assert_eq!(st.duration_ms, 68 * 60 * 1000);
    assert_eq!(st.model_entries.len(), 2);
    assert_eq!(st.model_entries[0].model, "qwen3");
    assert_eq!(st.model_entries[0].date, "2026-01-02");
    assert_eq!(st.model_entries[0].input_tokens, 100);
}

#[test]
fn raw_records_skip_bad_lines() {
    let text = sample().join("\n");
    assert_eq!(read_session(&text).len(), 4);
}

#[test]
fn header_scan_finds_title_and_start() {
    let (title, started, count) = quick_scan_header(&sample(), 2600);
    assert_eq!(title, "Hello there");
    assert_eq!(started, "2026-01-02T10:00:00.000Z");
    assert_eq!(count, 5);
    let custom = lines(&[
        r#"{"type":"system","subtype":"custom_title","title":"My title","timestamp":"t0"}"#,
        r#"{"type":"user","message":{"parts":[{"text":"ignored"}]}}"#,
    ]);
    let (t2, s2, c2) = quick_scan_header(&custom, 10);
    assert_eq!(t2, "My title");
    assert_eq!(s2, "t0");
    assert_eq!(c2, 1);
}

#[test]
fn header_scan_reads_twenty_lines_and_cuts_titles() {
    let mut ls: Vec<String> = (0..20).map(|_| "x".to_string()).collect();
    ls.push(r#"{"type":"user","message":{"parts":[{"text":"late"}]}}"#.to_string());
    let (t, s, _) = quick_scan_header(&ls, 0);
    assert_eq!(t, "");
    assert_eq!(s, "");
    let long = "a".repeat(100);
    let one = vec![format!(r#"{{"type":"user","message":{{"parts":[{{"text":"{}"}}]}}}}"#, long)];
    let (t2, _, _) = quick_scan_header(&one, 0);
    assert_eq!(t2.chars().count(), 80);
}

#[test]
fn sessions_latest_first_and_stable() {
    let mk = |id: &str, at: &str| SessionInfo {
        id: id.to_string(),
        title: String::new(),
        started_at: at.to_string(),
        message_count: 1,
        file_path: String::new(),
    };
    let sorted = sort_sessions(vec![mk("a", "2026-01-01"), mk("b", "2026-03-01"), mk("c", "2026-01-01"), mk("d", "2026-02-01")]);
    let ids: Vec<&str> = sorted.iter().map(|s| s.id.as_str()).collect();
    assert_eq!(ids, vec!["b", "d", "a", "c"]);
}
