use agentbox::metrics::{
    aggregate_call_records, build_call_records_sql, find_col, has_call_records, merge_daily_tokens,
    model_detail_tokens, sort_daily, uncached_exec, usage_db_missing, usage_db_unreadable, DailyTokens,
};

fn s(t: &str) -> String {
    t.to_string()
}

#[test]
fn find_col_ignores_ascii_case_and_prefers_candidate_order() {
    let cols = vec![s("ID"), s("Model"), s("CREATED_AT"), s("recorded_at")];
    assert_eq!(find_col(&cols, &["recorded_at", "created_at", "timestamp", "date"]), Some(s("recorded_at")));
    assert_eq!(find_col(&cols, &["model_name", "model", "model_id"]), Some(s("model")));
    assert_eq!(find_col(&cols, &["latency_ms", "latency"]), None);
    assert_eq!(find_col(&vec![], &["x"]), None);
}

#[test]
fn call_records_query_for_full_table() {
    let cols = vec![
        s("recorded_at"),
        s("model_name"),
        s("latency_ms"),
        s("total_tokens"),
        s("prompt_tokens"),
        s("completion_tokens"),
        s("cached_tokens"),
    ];
    assert_eq!(
        build_call_records_sql(&cols),
        "SELECT SUBSTR(recorded_at, 1, 10), model_name, latency_ms, total_tokens * 1000.0 / MAX(latency_ms, 1), prompt_tokens, completion_tokens, cached_tokens FROM call_records WHERE SUBSTR(recorded_at, 1, 10) >= SUBSTR(datetime('now', '-' || ?1 || ' days'), 1, 10)"
    );
}

#[test]
fn call_records_query_for_sparse_table() {
    let cols = vec![s("created_at"), s("model")];
    assert_eq!(
        build_call_records_sql(&cols),
        "SELECT DATE(created_at), model, NULL, 0, 0, 0, 0 FROM call_records WHERE SUBSTR(created_at, 1, 10) >= SUBSTR(datetime('now', '-' || ?1 || ' days'), 1, 10)"
    );
    assert_eq!(
        build_call_records_sql(&vec![]),
        "SELECT NULL, NULL, NULL, 0, 0, 0, 0 FROM call_records WHERE SUBSTR(recorded_at, 1, 10) >= SUBSTR(datetime('now', '-' || ?1 || ' days'), 1, 10)"
    );
}

#[test]
fn call_records_are_summed_per_day_and_model() {
    let rows = vec![
        (s("2026-01-01"), s("m1"), 10, 5, 1),
        (s("2026-01-01"), s("m1"), 20, 5, 2),
        (s(""), s("m1"), 99, 99, 99),
        (s("2026-01-01"), s("m2"), 7, 7, 7),
        (s("2026-01-02"), s(""), 1, 1, 1),
    ];
    let agg = aggregate_call_records(&rows);
    assert_eq!(agg, vec![(s("2026-01-01"), s("m1"), 30, 10, 3, 2), (s("2026-01-01"), s("m2"), 7, 7, 7, 1)]);
}

#[test]
fn request_logs_win_over_call_records() {
    let logs = vec![(s("2026-01-01"), s("m1"), 100, 50, 30, 4)];
    let calls = vec![
        (s("2026-01-01"), s("m1"), 999, 999, 999, 9),
        (s("2026-01-02"), s("m1"), 10, 5, 20, 3),
    ];
    let merged = merge_daily_tokens(&logs, &calls);
    assert_eq!(merged.len(), 2);
    assert_eq!(merged[0].input_tokens, 100);
    assert_eq!(merged[0].uncached_input, 70);
    assert_eq!(merged[0].request_count, 4);
    assert_eq!(merged[1].input_tokens, 10);
    assert_eq!(merged[1].uncached_input, 0);
    assert_eq!(merged[1].request_count, 3);
}

#[test]
fn detail_tokens_sorted() {
    let logs = vec![
        (s("2026-01-01"), s("b"), 10, 10, 0, 1),
        (s("2026-01-02"), s("a"), 100, 100, 0, 2),
        (s("2026-01-01"), s("a"), 5, 5, 0, 1),
    ];
    let d = model_detail_tokens(&logs, &vec![]);
    let days: Vec<(String, String)> = d.daily.iter().map(|x| (x.date.clone(), x.model.clone())).collect();
    assert_eq!(days, vec![(s("2026-01-02"), s("a")), (s("2026-01-01"), s("a")), (s("2026-01-01"), s("b"))]);
    assert_eq!(d.models[0].model, "a");
    assert_eq!(d.models[0].total_input, 105);
    assert_eq!(d.models[0].total_requests, 3);
    assert_eq!(d.models[1].model, "b");
}

#[test]
fn daily_sort_and_uncached() {
    let mk = |d: &str, m: &str| DailyTokens {
        date: s(d),
        model: s(m),
        input_tokens: 0,
        output_tokens: 0,
        cache_read: 0,
        uncached_input: 0,
        request_count: 0,
    };
    let v = sort_daily(&vec![mk("2026-01-01", "z"), mk("2026-01-01", "a"), mk("2026-02-01", "m")]);
    assert_eq!(v[0].date, "2026-02-01");
    assert_eq!(v[1].model, "a");
    assert_eq!(v[2].model, "z");
    assert_eq!(uncached_exec(10, 3), 7);
    assert_eq!(uncached_exec(3, 10), 0);
    assert_eq!(uncached_exec(i64::MAX, -5), i64::MAX);
}

#[test]
fn usage_db_reports() {
    let missing = usage_db_missing();
    assert!(!missing.exists);
    let bad = usage_db_unreadable("locked");
    assert!(bad.exists);
    assert_eq!(bad.tables, vec![s("error opening: locked")]);
    assert!(has_call_records(&vec![s("a"), s("call_records")]));
    assert!(!has_call_records(&vec![s("calls")]));
}
