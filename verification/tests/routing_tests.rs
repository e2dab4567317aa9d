use agentbox::db::ModelRoute;
use agentbox::routing::{candidate_pool, RouteBook};

fn make_route(model_db_id: i64, provider_id: i64, billing_type: &str) -> ModelRoute {
    ModelRoute {
        model_db_id,
        model_id: "test".to_string(),
        auth_type: r#"["openai"]"#.to_string(),
        is_default: false,
        config_json: None,
        provider_id,
        provider_name: format!("p{}", provider_id),
        base_url: "https://api.test.com".to_string(),
        api_key_env: "KEY".to_string(),
        proxy_mode: "direct".to_string(),
        proxy_url: None,
        auth_header: None,
        billing_type: billing_type.to_string(),
        compress_enabled: false,
    }
}

#[test]
fn pool_prefers_plan_routes() {
    let c = vec![make_route(1, 1, "pay_per_use"), make_route(2, 2, "plan"), make_route(3, 3, "plan")];
    assert_eq!(candidate_pool(&c), vec![1, 2]);
    let d = vec![make_route(1, 1, "pay_per_use"), make_route(2, 2, "pay_per_use")];
    assert_eq!(candidate_pool(&d), vec![0, 1]);
    assert_eq!(candidate_pool(&vec![]), Vec::<usize>::new());
}

#[test]
fn in_flight_counts() {
    let mut b = RouteBook::new();
    assert_eq!(b.in_flight_count(1, 1), 0);
    b.request_start(1, 1);
    b.request_start(1, 1);
    b.request_start(2, 1);
    assert_eq!(b.in_flight_count(1, 1), 2);
    b.request_end(1, 1);
    assert_eq!(b.in_flight_count(1, 1), 1);
    assert_eq!(b.in_flight_count(2, 1), 1);
    b.request_end(9, 9);
    assert_eq!(b.in_flight_count(9, 9), 0);
}

#[test]
fn three_failures_disable_for_a_minute() {
    let mut b = RouteBook::new();
    let now = 1_000_000u64;
    b.record_failure(1, 1, now);
    b.record_failure(1, 1, now);
    assert!(!b.is_disabled(1, 1, now));
    b.record_failure(1, 1, now);
    assert!(b.is_disabled(1, 1, now));
    assert!(b.is_disabled(1, 1, now + 59_999));
    assert!(!b.is_disabled(1, 1, now + 60_000));
    assert!(!b.is_disabled(2, 2, now));
    b.record_success(1, 1);
    assert!(!b.is_disabled(1, 1, now));
}

#[test]
fn reset_clears_a_record() {
    let mut b = RouteBook::new();
    for _ in 0..3 {
        b.record_failure(4, 4, 10);
    }
    assert!(b.is_disabled(4, 4, 11));
    b.reset_route(4, 4);
    assert!(!b.is_disabled(4, 4, 11));
}
