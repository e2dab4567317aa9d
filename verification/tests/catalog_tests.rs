use agentbox::catalog::{
    agent_entry, count_with_extension, extension_detail, extension_enabled, extension_enabled_in_text, extension_meta, extension_skill_source,
    extract_frontmatter_field, file_extension, file_stem, memory_doc, memory_entry, parse_frontmatter,
    project_index, project_info, skill_entry, split_frontmatter, toggle_enablement_text,
};
use agentbox::json::{JsonNumber, JsonValue};

fn s(t: &str) -> String {
    t.to_string()
}

fn from_serde(v: &serde_json::Value) -> JsonValue {
    match v {
        serde_json::Value::Null => JsonValue::Null,
        serde_json::Value::Bool(b) => JsonValue::Bool(*b),
        serde_json::Value::Number(n) => match (n.as_u64(), n.as_i64()) {
            (Some(u), _) => JsonValue::Number(JsonNumber::PosInt(u)),
            (None, Some(i)) => JsonValue::Number(JsonNumber::NegInt(i)),
            (None, None) => JsonValue::Number(JsonNumber::Float(n.to_string())),
        },
        serde_json::Value::String(t) => JsonValue::Str(t.clone()),
        serde_json::Value::Array(a) => JsonValue::Array(a.iter().map(from_serde).collect()),
        serde_json::Value::Object(m) => {
            JsonValue::Object(m.iter().map(|(k, x)| (k.clone(), from_serde(x))).collect())
        }
    }
}

const DOC: &str = "---\nname: \"My Skill\"\ndescription: Does things\ntype: user\n---\nBody text\n";

#[test]
fn frontmatter_name_and_description() {
    let (name, desc) = parse_frontmatter(DOC);
    assert_eq!(name, Some(s("My Skill")));
    assert_eq!(desc, "Does things");
    assert_eq!(parse_frontmatter("no front matter"), (None, s("")));
    assert_eq!(parse_frontmatter("---\nname: x\n"), (None, s("")));
}

#[test]
fn frontmatter_single_field() {
    assert_eq!(extract_frontmatter_field(DOC, "type"), Some(s("user")));
    assert_eq!(extract_frontmatter_field(DOC, "model"), None);
    assert_eq!(extract_frontmatter_field("plain", "type"), None);
}

#[test]
fn frontmatter_split_offsets() {
    let (end, fm, body) = split_frontmatter(DOC);
    assert_eq!(fm, "name: \"My Skill\"\ndescription: Does things\ntype: user");
    assert_eq!(body, "Body text");
    assert_eq!(end, DOC.find("Body").unwrap() - 1);
    let (e2, f2, b2) = split_frontmatter("just text");
    assert_eq!((e2, f2, b2), (0, s(""), s("just text")));
}

#[test]
fn file_names() {
    assert_eq!(file_extension("a.md"), Some(s("md")));
    assert_eq!(file_extension("archive.tar.gz"), Some(s("gz")));
    assert_eq!(file_extension(".hidden"), None);
    assert_eq!(file_extension("noext"), None);
    assert_eq!(file_stem("notes.md"), "notes");
    assert_eq!(file_stem(".hidden"), ".hidden");
    assert!(memory_doc("notes.md"));
    assert!(!memory_doc("MEMORY.md"));
    assert!(!memory_doc("notes.txt"));
    assert_eq!(count_with_extension(&vec![s("a.jsonl"), s("b.json"), s("c.jsonl")], "jsonl"), 2);
}

#[test]
fn entries_from_documents() {
    let m = memory_entry(DOC, "x.md", "/p/x.md");
    assert_eq!(m.name, "My Skill");
    assert_eq!(m.memory_type, "user");
    assert_eq!(m.description, "Does things");
    let m2 = memory_entry("plain", "notes.md", "/p/notes.md");
    assert_eq!(m2.name, "notes");
    assert_eq!(m2.memory_type, "unknown");
    let a = agent_entry("---\nmodel: qwen3\n---\n", "helper.md", "/a/helper.md");
    assert_eq!(a.name, "helper");
    assert_eq!(a.model, "qwen3");
    let sk = skill_entry("", "pdf", "/s/pdf", "user");
    assert_eq!(sk.name, "pdf");
    assert_eq!(sk.source, "user");
    assert_eq!(extension_skill_source("tools"), "ext:tools");
}

#[test]
fn extensions_enablement() {
    let en = from_serde(&serde_json::from_str::<serde_json::Value>(r#"{"a": {"overrides": ["*"]}, "b": {}}"#).unwrap());
    assert!(extension_enabled(&en, "a"));
    assert!(!extension_enabled(&en, "b"));
    assert!(extension_enabled(&en, "c"));
    let on = toggle_enablement_text(&Some(s("{}")), "x", true);
    assert!(extension_enabled(&on, "x"));
    let off = toggle_enablement_text(&Some(s(r#"{"x":{"overrides":["*"]},"y":{}}"#)), "x", false);
    assert!(!extension_enabled(&off, "x"));
    assert!(!extension_enabled(&off, "y"));
    match &off {
        JsonValue::Object(m) => {
            assert_eq!(m.len(), 2);
            assert_eq!(m[0].0, "x");
            assert!(matches!(&m[0].1, JsonValue::Object(inner) if inner.is_empty()));
            assert_eq!(m[1].0, "y");
        }
        _ => panic!("object expected"),
    }
    let fresh_off = toggle_enablement_text(&None, "z", false);
    assert!(!extension_enabled(&fresh_off, "z"));
    let (v, d) = extension_meta(&Some(s(r#"{"version":"1.2","description":"d"}"#)));
    assert_eq!((v, d), (s("1.2"), s("d")));
    assert_eq!(extension_meta(&Some(s("bad"))), (s(""), s("")));
    assert_eq!(extension_meta(&None), (s(""), s("")));
}

#[test]
fn project_entries() {
    let p = project_info("proj", "/p", &vec![s("a.jsonl"), s("b.txt")]);
    assert_eq!(p.session_count, 1);
    let idx = project_index("proj", &vec![(s("old"), 5), (s("new"), 9), (s("tie"), 9)], &vec![s("a.md"), s("MEMORY.md")]);
    assert_eq!(idx.session_count, 3);
    assert_eq!(idx.memory_count, 1);
    assert_eq!(idx.latest_session, Some(s("new")));
    assert_eq!(project_index("e", &vec![], &vec![]).latest_session, None);
}

#[test]
fn enablement_text_decides_listing() {
    assert!(extension_enabled_in_text(&None, "x"));
    assert!(extension_enabled_in_text(&Some(s("not json")), "x"));
    assert!(extension_enabled_in_text(&Some(s("[1, 2]")), "x"));
    assert!(extension_enabled_in_text(&Some(s("{\"x\": {\"overrides\": [\"*\"]}}")), "x"));
    assert!(!extension_enabled_in_text(&Some(s("{\"x\": {}}")), "x"));
    assert!(extension_enabled_in_text(&Some(s("{\"y\": {}}")), "x"));
}

#[test]
fn extension_detail_documents() {
    let d = extension_detail(&Some(s(r#"{"version":"2"}"#)), Some(s("# ctx")), "/home/u/.qwen/extensions/e");
    match &d {
        JsonValue::Object(m) => {
            assert_eq!(m.len(), 3);
            assert_eq!(m[0].0, "config");
            match &m[0].1 {
                JsonValue::Object(c) => {
                    assert_eq!(c.len(), 1);
                    assert_eq!(c[0].0, "version");
                    assert!(matches!(&c[0].1, JsonValue::Str(v) if v == "2"));
                }
                _ => panic!("config object expected"),
            }
            assert_eq!(m[1].0, "context");
            assert!(matches!(&m[1].1, JsonValue::Str(c) if c == "# ctx"));
            assert_eq!(m[2].0, "path");
            assert!(matches!(&m[2].1, JsonValue::Str(p) if p == "/home/u/.qwen/extensions/e"));
        }
        _ => panic!("object expected"),
    }
    for text in [None, Some(s("not json"))] {
        match extension_detail(&text, None, "p") {
            JsonValue::Object(m) => {
                assert!(matches!(&m[0].1, JsonValue::Object(c) if c.is_empty()));
                assert!(matches!(&m[1].1, JsonValue::Null));
            }
            _ => panic!("object expected"),
        }
    }
}
