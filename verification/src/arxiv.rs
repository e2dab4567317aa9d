use vstd::prelude::*;

use quick_xml::events::Event;

use crate::mcp::{paper_view, papers_view, AcademicResult};
use crate::seqs::{first_match, lemma_first_match_at, lemma_first_match_none};
use crate::text::{concat, copy_string, join_strings, join_with, owned, str_eq, trim, trim_string, views};

verus! {

/// One event of the XML tokenizer: a tag opened or closed (by its name), a
/// run of unescaped text, the end of the input, a tokenizer error (by its
/// message), or anything else (comments, empty tags, declarations).
#[derive(Debug)]
pub enum XmlEvent {
    Start(String),
    End(String),
    Text(String),
    Eof,
    Failed(String),
    Other,
}

/// Title, URL, authors, date, abstract and source of a paper.
pub type PaperFields = (Seq<char>, Seq<char>, Seq<char>, Seq<char>, Seq<char>, Seq<char>);

/// What the reader of an arXiv feed has gathered after some events: whether
/// it is inside an `entry` and inside an `author`, the tag whose text comes
/// next, the fields of the current entry and the papers finished so far.
pub struct ArxivDraft {
    pub in_entry: bool,
    pub in_author: bool,
    pub tag: Seq<char>,
    pub title: Seq<char>,
    pub id: Seq<char>,
    pub summary: Seq<char>,
    pub published: Seq<char>,
    pub authors: Seq<Seq<char>>,
    pub papers: Seq<PaperFields>,
}

/// The reader before any event.
pub open spec fn fresh_draft() -> ArxivDraft {
    ArxivDraft {
        in_entry: false,
        in_author: false,
        tag: Seq::empty(),
        title: Seq::empty(),
        id: Seq::empty(),
        summary: Seq::empty(),
        published: Seq::empty(),
        authors: Seq::empty(),
        papers: Seq::empty(),
    }
}

/// The paper that a closed `entry` yields: its fields trimmed, its authors
/// joined with `, `, and `arXiv` as the source.
pub open spec fn entry_paper(d: ArxivDraft) -> PaperFields {
    (trim(d.title), trim(d.id), join_with(d.authors, ", "@), trim(d.published), trim(d.summary), "arXiv"@)
}

/// The reader after an opening tag.
pub open spec fn on_start(d: ArxivDraft, n: Seq<char>) -> ArxivDraft {
    if n == "entry"@ {
        ArxivDraft {
            in_entry: true,
            title: Seq::empty(),
            id: Seq::empty(),
            summary: Seq::empty(),
            published: Seq::empty(),
            authors: Seq::empty(),
            ..d
        }
    } else if n == "author"@ && d.in_entry {
        ArxivDraft { in_author: true, ..d }
    } else if d.in_entry {
        ArxivDraft { tag: n, ..d }
    } else {
        d
    }
}

/// The reader after a run of text: inside an entry it is an author's name
/// or the value of the field whose tag is open.
pub open spec fn on_text(d: ArxivDraft, t: Seq<char>) -> ArxivDraft {
    if !d.in_entry {
        d
    } else if d.in_author && d.tag == "name"@ {
        ArxivDraft { authors: d.authors.push(t), ..d }
    } else if d.tag == "title"@ {
        ArxivDraft { title: t, ..d }
    } else if d.tag == "id"@ {
        ArxivDraft { id: t, ..d }
    } else if d.tag == "summary"@ {
        ArxivDraft { summary: t, ..d }
    } else if d.tag == "published"@ {
        ArxivDraft { published: t, ..d }
    } else {
        d
    }
}

/// The reader after a closing tag: a closed `entry` becomes a paper, a
/// closed `author` ends the author, and no tag is open any more.
pub open spec fn on_end(d: ArxivDraft, n: Seq<char>) -> ArxivDraft {
    let e = if n == "entry"@ {
        ArxivDraft { in_entry: false, papers: d.papers.push(entry_paper(d)), ..d }
    } else if n == "author"@ {
        ArxivDraft { in_author: false, ..d }
    } else {
        d
    };
    ArxivDraft { tag: Seq::empty(), ..e }
}

/// The reader after one event; the end of input and errors leave it as it is.
pub open spec fn arxiv_step(d: ArxivDraft, ev: XmlEvent) -> ArxivDraft {
    match ev {
        XmlEvent::Start(n) => on_start(d, n@),
        XmlEvent::Text(t) => on_text(d, t@),
        XmlEvent::End(n) => on_end(d, n@),
        _ => d,
    }
}

/// The reader after a sequence of events.
pub open spec fn arxiv_draft(evs: Seq<XmlEvent>) -> ArxivDraft
    decreases evs.len(),
{
    if evs.len() == 0 {
        fresh_draft()
    } else {
        arxiv_step(arxiv_draft(evs.drop_last()), evs.last())
    }
}

/// How many `entry` tags the events close.
pub open spec fn closed_entries(evs: Seq<XmlEvent>) -> nat
    decreases evs.len(),
{
    if evs.len() == 0 {
        0
    } else {
        closed_entries(evs.drop_last()) + match evs.last() {
            XmlEvent::End(n) => if n@ == "entry"@ {
                1nat
            } else {
                0nat
            },
            _ => 0nat,
        }
    }
}

/// Reading a feed yields one paper for each closed `entry`, and every
/// paper names arXiv as its source.
pub proof fn lemma_one_paper_per_entry(evs: Seq<XmlEvent>)
    ensures
        arxiv_draft(evs).papers.len() == closed_entries(evs),
        forall|i: int| 0 <= i < arxiv_draft(evs).papers.len() ==> (#[trigger] arxiv_draft(evs).papers[i]).5 == "arXiv"@,
    decreases evs.len(),
{
    if evs.len() > 0 {
        lemma_one_paper_per_entry(evs.drop_last());
    }
}

/// Whether an event ends the reading: the end of input or an error.
pub open spec fn ends_reading(ev: XmlEvent) -> bool {
    ev is Eof || ev is Failed
}

/// What a sequence of events gives: the papers of the events before the end
/// of input (or of all events, when none ends the reading), or the message
/// of the first error.
pub open spec fn arxiv_outcome(evs: Seq<XmlEvent>) -> Result<Seq<PaperFields>, Seq<char>> {
    match first_match(evs, |ev: XmlEvent| ends_reading(ev)) {
        None => Ok(arxiv_draft(evs).papers),
        Some(k) => match evs[k] {
            XmlEvent::Failed(m) => Err("arXiv XML error: "@ + m@),
            _ => Ok(arxiv_draft(evs.take(k)).papers),
        },
    }
}

/// View of a list of papers or an error message.
pub open spec fn papers_result_view(r: Result<Vec<AcademicResult>, String>) -> Result<Seq<PaperFields>, Seq<char>> {
    match r {
        Ok(v) => Ok(papers_view(v@)),
        Err(e) => Err(e@),
    }
}

/// Reads the papers of an arXiv Atom feed from its events: each `entry`
/// gives its `title`, `id`, `published` and `summary` (trimmed) and the
/// `name` of each `author`; reading stops at the end of input, and the first
/// tokenizer error is answered with its message.
pub fn arxiv_from_events(events: &Vec<XmlEvent>) -> (r: Result<Vec<AcademicResult>, String>)
    ensures
        papers_result_view(r) == arxiv_outcome(events@),
{
    let ghost evs = events@;
    let ghost stop = |ev: XmlEvent| ends_reading(ev);
    let mut in_entry = false;
    let mut in_author = false;
    let mut tag = String::new();
    let mut title = String::new();
    let mut id = String::new();
    let mut summary = String::new();
    let mut published = String::new();
    let mut authors: Vec<String> = Vec::new();
    let mut out: Vec<AcademicResult> = Vec::new();
    assert(evs.take(0) =~= Seq::<XmlEvent>::empty());
    assert(views(authors@) =~= Seq::<Seq<char>>::empty());
    assert(papers_view(out@) =~= Seq::<PaperFields>::empty());
    let mut i: usize = 0;
    while i < events.len()
        invariant
            i <= evs.len(),
            evs == events@,
            stop == (|ev: XmlEvent| ends_reading(ev)),
            forall|j: int| 0 <= j < i ==> !ends_reading(#[trigger] evs[j]),
            ({
                let d = arxiv_draft(evs.take(i as int));
                &&& in_entry == d.in_entry
                &&& in_author == d.in_author
                &&& tag@ == d.tag
                &&& title@ == d.title
                &&& id@ == d.id
                &&& summary@ == d.summary
                &&& published@ == d.published
                &&& views(authors@) == d.authors
                &&& papers_view(out@) == d.papers
            }),
        decreases evs.len() - i,
    {
        let ghost d = arxiv_draft(evs.take(i as int));
        assert(evs.take(i + 1).drop_last() =~= evs.take(i as int));
        assert(evs.take(i + 1).last() == evs[i as int]);
        match &events[i] {
            XmlEvent::Eof => {
                proof {
                    lemma_first_match_at(evs, stop, i as int);
                }
                return Ok(out);
            },
            XmlEvent::Failed(m) => {
                proof {
                    lemma_first_match_at(evs, stop, i as int);
                }
                return Err(concat("arXiv XML error: ", m.as_str()));
            },
            XmlEvent::Start(n) => {
                if str_eq(n.as_str(), "entry") {
                    in_entry = true;
                    title = String::new();
                    id = String::new();
                    summary = String::new();
                    published = String::new();
                    authors = Vec::new();
                    assert(views(authors@) =~= Seq::<Seq<char>>::empty());
                } else if str_eq(n.as_str(), "author") && in_entry {
                    in_author = true;
                } else if in_entry {
                    tag = copy_string(n);
                }
            },
            XmlEvent::Text(t) => {
                if in_entry {
                    if in_author && str_eq(tag.as_str(), "name") {
                        let ghost before = views(authors@);
                        authors.push(copy_string(t));
                        assert(views(authors@) =~= before.push(t@));
                    } else if str_eq(tag.as_str(), "title") {
                        title = copy_string(t);
                    } else if str_eq(tag.as_str(), "id") {
                        id = copy_string(t);
                    } else if str_eq(tag.as_str(), "summary") {
                        summary = copy_string(t);
                    } else if str_eq(tag.as_str(), "published") {
                        published = copy_string(t);
                    }
                }
            },
            XmlEvent::End(n) => {
                if str_eq(n.as_str(), "entry") {
                    in_entry = false;
                    let p = AcademicResult {
                        title: trim_string(title.as_str()),
                        url: trim_string(id.as_str()),
                        authors: join_strings(&authors, ", "),
                        published: trim_string(published.as_str()),
                        abstract_text: trim_string(summary.as_str()),
                        source: owned("arXiv"),
                    };
                    let ghost before = papers_view(out@);
                    out.push(p);
                    assert(papers_view(out@) =~= before.push(paper_view(p)));
                } else if str_eq(n.as_str(), "author") {
                    in_author = false;
                }
                tag = String::new();
            },
            XmlEvent::Other => {},
        }
        i = i + 1;
    }
    proof {
        lemma_first_match_none(evs, stop);
        assert(evs.take(evs.len() as int) =~= evs);
    }
    Ok(out)
}

/// Name for the events that `quick_xml`'s reader yields for a text, up to
/// and including the end of input or the first error: they depend on the
/// text alone.
pub uninterp spec fn xml_events(xml: Seq<char>) -> Seq<XmlEvent>;

/// Reads a text with `quick_xml::Reader::from_str` and `read_event` until
/// the end of input or an error: tag names decoded lossily, text unescaped
/// (empty where unescaping fails), an error kept as its message.
#[verifier::external_body]
fn read_xml_events(xml: &str) -> (r: Vec<XmlEvent>)
    ensures
        r@ == xml_events(xml@),
{
    let mut reader = quick_xml::Reader::from_str(xml);
    let mut out = Vec::new();
    loop {
        match reader.read_event() {
            Ok(Event::Start(e)) => out.push(XmlEvent::Start(String::from_utf8_lossy(e.name().0).into_owned())),
            Ok(Event::End(e)) => out.push(XmlEvent::End(String::from_utf8_lossy(e.name().0).into_owned())),
            Ok(Event::Text(e)) => out.push(XmlEvent::Text(e.unescape().unwrap_or_default().into_owned())),
            Ok(Event::Eof) => break out.push(XmlEvent::Eof),
            Ok(_) => out.push(XmlEvent::Other),
            Err(e) => break out.push(XmlEvent::Failed(e.to_string())),
        }
    }
    out
}

/// Reads the papers of an arXiv Atom feed: what `arxiv_from_events` makes
/// of the tokenizer's events for the text.
pub fn parse_arxiv_xml(xml: &str) -> (r: Result<Vec<AcademicResult>, String>)
    ensures
        papers_result_view(r) == arxiv_outcome(xml_events(xml@)),
{
    let events = read_xml_events(xml);
    arxiv_from_events(&events)
}

} // verus!
