use agentbox::arxiv::{arxiv_from_events, parse_arxiv_xml, XmlEvent};

fn s(t: &str) -> String {
    t.to_string()
}

const FEED: &str = r#"<?xml version="1.0" encoding="UTF-8"?>
<feed xmlns="http://www.w3.org/2005/Atom">
  <title>ArXiv Query</title>
  <entry>
    <id>http://arxiv.org/abs/2401.00001v1</id>
    <published>2024-01-01T00:00:00Z</published>
    <title>  Attention &amp; Memory </title>
    <summary>
      We study things.
    </summary>
    <author><name>Ada Lovelace</name></author>
    <author><name>Alan Turing</name></author>
    <link href="http://arxiv.org/abs/2401.00001v1" rel="alternate"/>
  </entry>
  <entry>
    <id>http://arxiv.org/abs/2401.00002v2</id>
    <title>Second</title>
  </entry>
</feed>"#;

#[test]
fn arxiv_feed_gives_each_entry() {
    let papers = parse_arxiv_xml(FEED).unwrap();
    assert_eq!(papers.len(), 2);
    let p = &papers[0];
    assert_eq!(p.title, "Attention & Memory");
    assert_eq!(p.url, "http://arxiv.org/abs/2401.00001v1");
    assert_eq!(p.published, "2024-01-01T00:00:00Z");
    assert_eq!(p.abstract_text, "We study things.");
    assert_eq!(p.authors, "Ada Lovelace, Alan Turing");
    assert_eq!(p.source, "arXiv");
    assert_eq!(papers[1].title, "Second");
    assert_eq!(papers[1].authors, "");
    assert_eq!(papers[1].abstract_text, "");
}

#[test]
fn arxiv_feed_title_outside_entry_is_ignored() {
    let papers = parse_arxiv_xml("<feed><title>Feed</title></feed>").unwrap();
    assert!(papers.is_empty());
}

#[test]
fn arxiv_mismatched_tags_are_an_error() {
    let r = parse_arxiv_xml("<feed><entry></feed>");
    let e = r.unwrap_err();
    assert!(e.starts_with("arXiv XML error: "));
}

#[test]
fn arxiv_events_stop_at_end_of_input() {
    let evs = vec![
        XmlEvent::Start(s("entry")),
        XmlEvent::Start(s("title")),
        XmlEvent::Text(s(" T ")),
        XmlEvent::End(s("title")),
        XmlEvent::End(s("entry")),
        XmlEvent::Eof,
        XmlEvent::Failed(s("late")),
    ];
    let r = arxiv_from_events(&evs).unwrap();
    assert_eq!(r.len(), 1);
    assert_eq!(r[0].title, "T");
    assert_eq!(r[0].url, "");
}

#[test]
fn arxiv_events_error_message_is_prefixed() {
    let evs = vec![XmlEvent::Start(s("entry")), XmlEvent::Failed(s("bad"))];
    assert_eq!(arxiv_from_events(&evs).unwrap_err(), "arXiv XML error: bad");
}

#[test]
fn arxiv_author_name_only_inside_author() {
    let evs = vec![
        XmlEvent::Start(s("entry")),
        XmlEvent::Start(s("name")),
        XmlEvent::Text(s("not an author")),
        XmlEvent::End(s("name")),
        XmlEvent::Start(s("author")),
        XmlEvent::Start(s("name")),
        XmlEvent::Text(s("Grace")),
        XmlEvent::End(s("name")),
        XmlEvent::End(s("author")),
        XmlEvent::End(s("entry")),
    ];
    let r = arxiv_from_events(&evs).unwrap();
    assert_eq!(r[0].authors, "Grace");
}
