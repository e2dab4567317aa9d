use agentbox::analytics::{rank_call_lists, session_needs_sync};

fn s(t: &str) -> String {
    t.to_string()
}

#[test]
fn call_lists_are_summed_and_ranked() {
    let lists = vec![
        s(r#"[{"name":"read","count":3},{"name":"write","count":1}]"#),
        s(r#"[{"name":"write","count":5},{"name":"bad"},{"count":2}]"#),
        s("not json"),
        s(r#"{"name":"read","count":100}"#),
        s(r#"[{"name":"grep","count":3}]"#),
    ];
    let top = rank_call_lists(&lists);
    let got: Vec<(String, usize)> = top.iter().map(|n| (n.name.clone(), n.count)).collect();
    assert_eq!(got, vec![(s("write"), 6), (s("read"), 3), (s("grep"), 3)]);
}

#[test]
fn ranking_keeps_ten() {
    let items: Vec<String> = (0..15).map(|i| format!(r#"{{"name":"t{}","count":{}}}"#, i, i + 1)).collect();
    let lists = vec![format!("[{}]", items.join(","))];
    let top = rank_call_lists(&lists);
    assert_eq!(top.len(), 10);
    assert_eq!(top[0].name, "t14");
    assert_eq!(top[9].name, "t5");
}

#[test]
fn sync_decision() {
    assert!(session_needs_sync(true, &Some((10, s("1"))), 10, "1"));
    assert!(!session_needs_sync(false, &Some((10, s("1"))), 10, "1"));
    assert!(session_needs_sync(false, &Some((10, s("1"))), 11, "1"));
    assert!(session_needs_sync(false, &Some((10, s("1"))), 10, "2"));
    assert!(session_needs_sync(false, &None, 0, ""));
}
