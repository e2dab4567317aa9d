use vstd::prelude::*;
use vstd::string::StringSliceAdditionalSpecFns;
use vstd::utf8::{decode_utf8, encode_utf8, is_char_boundary};

use crate::discovery::text_or;
use crate::json::{
    elements_of, field, field_of, field_str, get_opt, JNum, JsonNumber, lemma_view_array, lemma_view_object, opt_view, str_of,
    u64_of, view_elements, view_json, view_members, JVal, JsonValue,
};
use crate::seqs::{leading_not_after, stable_sort};
use crate::numfmt::{dec_text, i64_text, int_text, u64_text};
use crate::text::{chars_of, concat, has_suffix, join_strings, join_with, owned, str_eq, trim, trim_string, views};

verus! {

/// Settings of the built-in MCP server.
pub struct McpConfig {
    pub port: u16,
    pub auto_inject: bool,
    pub smartsearch_enabled: bool,
    pub academicsearch_enabled: bool,
    pub cleanfetch_enabled: bool,
    pub search_mode: String,
    pub tavily_api_key: Option<String>,
    pub jina_api_key: Option<String>,
    pub proxy_url: Option<String>,
}

/// Calls of one tool this month.
pub struct ToolStats {
    pub tool_name: String,
    pub total: i64,
    pub success: i64,
}

/// Calls of one upstream service this month.
pub struct ApiStats {
    pub api_name: String,
    pub total: i64,
    pub success: i64,
}

/// The MCP server's monthly call statistics.
pub struct McpStats {
    pub monthly_total: i64,
    pub monthly_success: i64,
    pub by_tool: Vec<ToolStats>,
    pub by_api: Vec<ApiStats>,
}

/// One web search hit.
#[derive(Debug, Clone)]
pub struct SearchResult {
    pub title: String,
    pub url: String,
    pub snippet: String,
}

/// One academic search hit.
#[derive(Debug, Clone)]
pub struct AcademicResult {
    pub title: String,
    pub url: String,
    pub authors: String,
    pub published: String,
    pub abstract_text: String,
    pub source: String,
}

/// View of a web search hit: title, URL and snippet.
pub open spec fn hit_view(r: SearchResult) -> (Seq<char>, Seq<char>, Seq<char>) {
    (r.title@, r.url@, r.snippet@)
}

/// Views of web search hits.
pub open spec fn hits_view(s: Seq<SearchResult>) -> Seq<(Seq<char>, Seq<char>, Seq<char>)> {
    Seq::new(s.len(), |i: int| hit_view(s[i]))
}

/// A text, or a fallback when it is empty.
pub open spec fn or_if_empty(t: Seq<char>, d: Seq<char>) -> Seq<char> {
    if t.len() == 0 {
        d
    } else {
        t
    }
}

/// The lines written for web search hits, numbered from `start + 1`.
pub open spec fn hit_lines(hs: Seq<(Seq<char>, Seq<char>, Seq<char>)>) -> Seq<char>
    decreases hs.len(),
{
    if hs.len() == 0 {
        Seq::empty()
    } else {
        let h = hs.last();
        hit_lines(hs.drop_last()) + dec_text(hs.len()) + ". **"@ + h.0 + "**\n   URL: "@ + h.1 + "\n   "@
            + or_if_empty(h.2, "(no description)"@) + "\n\n"@
    }
}

/// The answer of a web search: a numbered Markdown list of the hits under
/// a heading, or a note that there were none.
pub open spec fn search_results_text(query: Seq<char>, hs: Seq<(Seq<char>, Seq<char>, Seq<char>)>) -> Seq<char> {
    if hs.len() == 0 {
        "No results found for \""@ + query + "\""@
    } else {
        "## Search Results for \""@ + query + "\"\n\n"@ + hit_lines(hs)
    }
}

/// Writes the answer of a web search.
pub fn format_search_results(query: &str, results: &Vec<SearchResult>) -> (r: String)
    ensures
        r@ == search_results_text(query@, hits_view(results@)),
{
    let ghost hv = hits_view(results@);
    if results.len() == 0 {
        let mut out = owned("No results found for \"");
        out.push_str(query);
        out.push_str("\"");
        return out;
    }
    let mut out = owned("## Search Results for \"");
    out.push_str(query);
    out.push_str("\"\n\n");
    let ghost head = out@;
    let mut i: usize = 0;
    assert(hv.take(0) =~= Seq::<(Seq<char>, Seq<char>, Seq<char>)>::empty());
    while i < results.len()
        invariant
            i <= results@.len(),
            hv == hits_view(results@),
            out@ == head + hit_lines(hv.take(i as int)),
        decreases results@.len() - i,
    {
        assert(hv.take(i + 1).drop_last() == hv.take(i as int));
        assert(hv.take(i + 1).last() == hv[i as int]);
        let r = &results[i];
        let n = u64_text(i as u64 + 1);
        out.push_str(n.as_str());
        out.push_str(". **");
        out.push_str(r.title.as_str());
        out.push_str("**\n   URL: ");
        out.push_str(r.url.as_str());
        out.push_str("\n   ");
        if r.snippet.as_str().is_empty() {
            out.push_str("(no description)");
        } else {
            out.push_str(r.snippet.as_str());
        }
        out.push_str("\n\n");
        assert(out@ =~= head + hit_lines(hv.take(i + 1)));
        i = i + 1;
    }
    assert(hv.take(hv.len() as int) == hv);
    out
}

/// View of an academic hit: title, URL, authors, date, abstract and source.
pub open spec fn paper_view(r: AcademicResult) -> (Seq<char>, Seq<char>, Seq<char>, Seq<char>, Seq<char>, Seq<char>) {
    (r.title@, r.url@, r.authors@, r.published@, r.abstract_text@, r.source@)
}

/// Views of academic hits.
pub open spec fn papers_view(s: Seq<AcademicResult>) -> Seq<(Seq<char>, Seq<char>, Seq<char>, Seq<char>, Seq<char>, Seq<char>)> {
    Seq::new(s.len(), |i: int| paper_view(s[i]))
}

/// The abstract shown for a hit: its first 300 bytes and `...` when it is
/// longer than that.
pub open spec fn abstract_preview(a: Seq<char>) -> Seq<char> {
    if encode_utf8(a).len() > 300 {
        decode_utf8(encode_utf8(a).take(300)) + "..."@
    } else {
        a
    }
}

/// An abstract can be cut at 300 bytes: it is not longer, or byte 300
/// starts a character.
pub open spec fn cuttable(a: Seq<char>) -> bool {
    encode_utf8(a).len() > 300 ==> is_char_boundary(encode_utf8(a), 300)
}

/// The lines written for academic hits.
pub open spec fn paper_lines(ps: Seq<(Seq<char>, Seq<char>, Seq<char>, Seq<char>, Seq<char>, Seq<char>)>) -> Seq<char>
    decreases ps.len(),
{
    if ps.len() == 0 {
        Seq::empty()
    } else {
        paper_lines(ps.drop_last()) + paper_entry(ps.last(), ps.len())
    }
}

/// The lines written for the `n`-th academic hit.
pub open spec fn paper_entry(p: (Seq<char>, Seq<char>, Seq<char>, Seq<char>, Seq<char>, Seq<char>), n: nat) -> Seq<char> {
    let body = dec_text(n) + ". **"@ + p.0 + "**\n   Source: "@ + p.5 + " | Published: "@ + or_if_empty(p.3, "N/A"@)
        + "\n   Authors: "@ + or_if_empty(p.2, "N/A"@) + "\n   URL: "@ + p.1 + "\n"@;
    let abs = if p.4.len() == 0 {
        Seq::empty()
    } else {
        "   Abstract: "@ + abstract_preview(p.4) + "\n"@
    };
    body + abs + "\n"@
}

fn paper_entry_exec(r: &AcademicResult, n: u64) -> (out: String)
    requires
        cuttable(r.abstract_text@),
    ensures
        out@ == paper_entry(paper_view(*r), n as nat),
{
    let mut out = u64_text(n);
    out.push_str(". **");
    out.push_str(r.title.as_str());
    out.push_str("**\n   Source: ");
    out.push_str(r.source.as_str());
    out.push_str(" | Published: ");
    if r.published.as_str().is_empty() {
        out.push_str("N/A");
    } else {
        out.push_str(r.published.as_str());
    }
    out.push_str("\n   Authors: ");
    if r.authors.as_str().is_empty() {
        out.push_str("N/A");
    } else {
        out.push_str(r.authors.as_str());
    }
    out.push_str("\n   URL: ");
    out.push_str(r.url.as_str());
    out.push_str("\n");
    let ghost body = out@;
    if !r.abstract_text.as_str().is_empty() {
        let p = preview_exec(r.abstract_text.as_str());
        out.push_str("   Abstract: ");
        out.push_str(p.as_str());
        out.push_str("\n");
    }
    out.push_str("\n");
    out
}

/// The answer of an academic search: a numbered Markdown list of the hits
/// under a heading, or a note that there were none.
pub open spec fn academic_results_text(
    query: Seq<char>,
    ps: Seq<(Seq<char>, Seq<char>, Seq<char>, Seq<char>, Seq<char>, Seq<char>)>,
) -> Seq<char> {
    if ps.len() == 0 {
        "No academic results found for \""@ + query + "\""@
    } else {
        "## Academic Results for \""@ + query + "\"\n\n"@ + paper_lines(ps)
    }
}

fn preview_exec(a: &str) -> (r: String)
    requires
        cuttable(a@),
    ensures
        r@ == abstract_preview(a@),
{
    if a.as_bytes().len() > 300 {
        let (head, _) = a.split_at(300);
        proof {
            vstd::utf8::encode_utf8_decode_utf8(head@);
        }
        let mut p = owned(head);
        p.push_str("...");
        proof {
            reveal_strlit("...");
        }
        p
    } else {
        owned(a)
    }
}

/// Writes the answer of an academic search.
pub fn format_academic_results(query: &str, results: &Vec<AcademicResult>) -> (r: String)
    requires
        forall|i: int| 0 <= i < results@.len() ==> cuttable(#[trigger] results@[i].abstract_text@),
    ensures
        r@ == academic_results_text(query@, papers_view(results@)),
{
    let ghost pv = papers_view(results@);
    if results.len() == 0 {
        let mut out = owned("No academic results found for \"");
        out.push_str(query);
        out.push_str("\"");
        return out;
    }
    let mut out = owned("## Academic Results for \"");
    out.push_str(query);
    out.push_str("\"\n\n");
    let ghost head = out@;
    let mut i: usize = 0;
    assert(pv.take(0) =~= Seq::<(Seq<char>, Seq<char>, Seq<char>, Seq<char>, Seq<char>, Seq<char>)>::empty());
    while i < results.len()
        invariant
            i <= results@.len(),
            pv == papers_view(results@),
            forall|k: int| 0 <= k < results@.len() ==> cuttable(#[trigger] results@[k].abstract_text@),
            out@ == head + paper_lines(pv.take(i as int)),
        decreases results@.len() - i,
    {
        assert(pv.take(i + 1).drop_last() == pv.take(i as int));
        assert(pv.take(i + 1).last() == pv[i as int]);
        let r = &results[i];
        let e = paper_entry_exec(r, i as u64 + 1);
        let ghost before = out@;
        out.push_str(e.as_str());
        assert(out@ =~= before + e@);
        i = i + 1;
    }
    assert(pv.take(pv.len() as int) == pv);
    out
}

/// The tools the MCP server offers.
#[derive(PartialEq, Eq, Structural, Clone, Copy, Debug)]
pub enum McpTool {
    SmartSearch,
    AcademicSearch,
    CleanFetch,
}

/// The tools listed for a configuration: web search and page fetching
/// unless switched off, academic search only when switched on; without a
/// readable configuration, the same defaults.
pub open spec fn listed_tools(cfg: Option<(bool, bool, bool)>) -> Seq<McpTool> {
    let (s, a, c) = match cfg {
        Some(f) => f,
        None => (true, false, true),
    };
    let t1: Seq<McpTool> = if s {
        seq![McpTool::SmartSearch]
    } else {
        Seq::empty()
    };
    let t2 = if a {
        t1.push(McpTool::AcademicSearch)
    } else {
        t1
    };
    if c {
        t2.push(McpTool::CleanFetch)
    } else {
        t2
    }
}

/// The switches of a configuration.
pub open spec fn switches(cfg: Option<McpConfig>) -> Option<(bool, bool, bool)> {
    match cfg {
        Some(c) => Some((c.smartsearch_enabled, c.academicsearch_enabled, c.cleanfetch_enabled)),
        None => None,
    }
}

/// Lists the tools the server offers.
pub fn tools_to_list(cfg: &Option<McpConfig>) -> (r: Vec<McpTool>)
    ensures
        r@ == listed_tools(switches(*cfg)),
{
    let (s, a, c) = match cfg {
        Some(c) => (c.smartsearch_enabled, c.academicsearch_enabled, c.cleanfetch_enabled),
        None => (true, false, true),
    };
    let mut r: Vec<McpTool> = Vec::new();
    if s {
        r.push(McpTool::SmartSearch);
    }
    if a {
        r.push(McpTool::AcademicSearch);
    }
    if c {
        r.push(McpTool::CleanFetch);
    }
    assert(r@ =~= listed_tools(switches(*cfg)));
    r
}

/// What a tool call asks for.
pub enum ToolCall {
    SmartSearch { query: String },
    AcademicSearch { query: String, engines: Option<Vec<String>> },
    CleanFetch { url: String },
    Invalid { message: String },
}

/// The texts among JSON values.
pub open spec fn texts_in(vs: Seq<JVal>) -> Seq<Seq<char>>
    decreases vs.len(),
{
    if vs.len() == 0 {
        Seq::empty()
    } else {
        match vs.last() {
            JVal::Str(t) => texts_in(vs.drop_last()).push(t),
            _ => texts_in(vs.drop_last()),
        }
    }
}

/// What a `tools/call` request asks for: the named tool with its required
/// argument, or the error it is answered with.
pub open spec fn planned_call(params: JVal) -> (u8, Seq<char>, Option<Seq<Seq<char>>>) {
    let name = text_or(str_of(field(params, "name"@)), Seq::empty());
    let args = field(params, "arguments"@);
    let query = text_or(str_of(field_of(args, "query"@)), Seq::empty());
    let url = text_or(str_of(field_of(args, "url"@)), Seq::empty());
    if name == "smartsearch"@ {
        if query.len() == 0 {
            (3, "query parameter is required"@, None)
        } else {
            (0, query, None)
        }
    } else if name == "academicsearch"@ {
        if query.len() == 0 {
            (3, "query parameter is required"@, None)
        } else {
            (
                1,
                query,
                match elements_of(field_of(args, "engines"@)) {
                    Some(vs) => Some(texts_in(vs)),
                    None => None,
                },
            )
        }
    } else if name == "cleanfetch"@ {
        if url.len() == 0 {
            (3, "url parameter is required"@, None)
        } else {
            (2, url, None)
        }
    } else {
        (3, "Unknown tool: "@ + name, None)
    }
}

/// View of a planned call: which tool (or 3 for an error), its text
/// argument (or the error), and the engine subset.
pub open spec fn call_view(c: ToolCall) -> (u8, Seq<char>, Option<Seq<Seq<char>>>) {
    match c {
        ToolCall::SmartSearch { query } => (0, query@, None),
        ToolCall::AcademicSearch { query, engines } => (
            1,
            query@,
            match engines {
                Some(v) => Some(views(v@)),
                None => None,
            },
        ),
        ToolCall::CleanFetch { url } => (2, url@, None),
        ToolCall::Invalid { message } => (3, message@, None),
    }
}

fn text_arg(v: Option<&JsonValue>, key: &str) -> (r: String)
    ensures
        r@ == text_or(str_of(field_of(opt_view(v), key@)), Seq::empty()),
{
    match field_str(v, key) {
        Some(t) => t,
        None => String::new(),
    }
}

fn texts_of(vs: &Vec<JsonValue>) -> (r: Vec<String>)
    ensures
        views(r@) == texts_in(view_elements(vs@)),
{
    let ghost ev = view_elements(vs@);
    let mut out: Vec<String> = Vec::new();
    assert(views(out@) =~= Seq::empty());
    let mut i: usize = 0;
    while i < vs.len()
        invariant
            i <= vs@.len(),
            ev == view_elements(vs@),
            views(out@) == texts_in(ev.take(i as int)),
        decreases vs@.len() - i,
    {
        assert(ev.take(i + 1).drop_last() == ev.take(i as int));
        assert(ev.take(i + 1).last() == ev[i as int]);
        match &vs[i] {
            JsonValue::Str(t) => {
                let ghost before = views(out@);
                out.push(owned(t.as_str()));
                assert(views(out@) =~= before.push(t@));
            },
            _ => {},
        }
        i = i + 1;
    }
    assert(ev.take(ev.len() as int) == ev);
    out
}

/// Reads what a `tools/call` request asks for.
pub fn plan_tool_call(params: &JsonValue) -> (r: ToolCall)
    ensures
        call_view(r) == planned_call(view_json(*params)),
{
    let name = text_arg(Some(params), "name");
    let args = params.get("arguments");
    let query = text_arg(args, "query");
    let url = text_arg(args, "url");
    proof {
        reveal_strlit("smartsearch");
        reveal_strlit("academicsearch");
        reveal_strlit("cleanfetch");
    }
    if str_eq(name.as_str(), "smartsearch") {
        if query.as_str().is_empty() {
            ToolCall::Invalid { message: owned("query parameter is required") }
        } else {
            ToolCall::SmartSearch { query }
        }
    } else if str_eq(name.as_str(), "academicsearch") {
        if query.as_str().is_empty() {
            ToolCall::Invalid { message: owned("query parameter is required") }
        } else {
            let engines = match get_opt(args, "engines") {
                Some(JsonValue::Array(vs)) => {
                    proof {
                        lemma_view_array(*vs);
                    }
                    Some(texts_of(vs))
                },
                _ => None,
            };
            ToolCall::AcademicSearch { query, engines }
        }
    } else if str_eq(name.as_str(), "cleanfetch") {
        if url.as_str().is_empty() {
            ToolCall::Invalid { message: owned("url parameter is required") }
        } else {
            ToolCall::CleanFetch { url }
        }
    } else {
        ToolCall::Invalid { message: concat("Unknown tool: ", name.as_str()) }
    }
}

/// The result of a tool call as the protocol carries it: the text as
/// content, or `Error: ` and the message, marked as an error.
pub open spec fn tool_reply_json(result: Result<Seq<char>, Seq<char>>) -> JVal {
    match result {
        Ok(t) => JVal::Object(
            seq![("content"@, JVal::Array(seq![JVal::Object(seq![("type"@, JVal::Str("text"@)), ("text"@, JVal::Str(t))])]))],
        ),
        Err(e) => JVal::Object(
            seq![
                ("content"@, JVal::Array(seq![JVal::Object(seq![("type"@, JVal::Str("text"@)), ("text"@, JVal::Str("Error: "@ + e))])])),
                ("isError"@, JVal::Bool(true)),
            ],
        ),
    }
}

/// View of a textual result.
pub open spec fn result_view(r: Result<String, String>) -> Result<Seq<char>, Seq<char>> {
    match r {
        Ok(t) => Ok(t@),
        Err(e) => Err(e@),
    }
}

/// Wraps the result of a tool call for the protocol.
pub fn tool_reply(result: Result<String, String>) -> (r: JsonValue)
    ensures
        view_json(r) == tool_reply_json(result_view(result)),
{
    let ghost rv = result_view(result);
    let (text, failed) = match result {
        Ok(t) => (t, false),
        Err(e) => (concat("Error: ", e.as_str()), true),
    };
    let ghost tv = text@;
    let item = vec![(owned("type"), JsonValue::Str(owned("text"))), (owned("text"), JsonValue::Str(text))];
    proof {
        lemma_view_object(item);
    }
    let ghost iv = seq![("type"@, JVal::Str("text"@)), ("text"@, JVal::Str(tv))];
    assert(view_members(item@) =~= iv);
    let io = JsonValue::Object(item);
    assert(view_json(io) == JVal::Object(iv));
    let arr = vec![io];
    proof {
        lemma_view_array(arr);
    }
    assert(view_elements(arr@) =~= seq![JVal::Object(iv)]);
    let ao = JsonValue::Array(arr);
    assert(view_json(ao) == JVal::Array(seq![JVal::Object(iv)]));
    let mut top = vec![(owned("content"), ao)];
    let ghost t0 = view_members(top@);
    assert(t0 =~= seq![("content"@, JVal::Array(seq![JVal::Object(iv)]))]);
    if failed {
        top.push((owned("isError"), JsonValue::Bool(true)));
        assert(view_members(top@) =~= t0.push(("isError"@, JVal::Bool(true))));
    }
    proof {
        lemma_view_object(top);
    }
    let r = JsonValue::Object(top);
    assert(view_json(r) == JVal::Object(view_members(top@)));
    proof {
        match rv {
            Ok(t) => {
                assert(!failed && tv == t);
                assert(view_members(top@) =~= seq![("content"@, JVal::Array(seq![JVal::Object(iv)]))]);
                assert(view_json(r) == tool_reply_json(rv));
            },
            Err(e) => {
                assert(failed && tv == "Error: "@ + e);
                assert(view_members(top@) =~= seq![
                    ("content"@, JVal::Array(seq![JVal::Object(iv)])),
                    ("isError"@, JVal::Bool(true)),
                ]);
                assert(view_json(r) == tool_reply_json(rv));
            },
        }
    }
    r
}

/// How a web search is carried out.
pub enum SearchPlan {
    Tavily { key: String },
    Bing,
    Baidu,
    BingThenBaidu,
    Refused { message: String },
}

/// View of a search plan: which way (4 for a refusal) and its text.
pub open spec fn plan_view(p: SearchPlan) -> (u8, Seq<char>) {
    match p {
        SearchPlan::Tavily { key } => (0, key@),
        SearchPlan::Bing => (1, Seq::empty()),
        SearchPlan::Baidu => (2, Seq::empty()),
        SearchPlan::BingThenBaidu => (3, Seq::empty()),
        SearchPlan::Refused { message } => (4, message@),
    }
}

/// The search mode of a configuration, `engine` by default.
pub open spec fn mode_of(cfg: Option<McpConfig>) -> Seq<char> {
    match cfg {
        Some(c) => c.search_mode@,
        None => "engine"@,
    }
}

/// The Tavily key of a configuration, empty when there is none.
pub open spec fn tavily_key_of(cfg: Option<McpConfig>) -> Seq<char> {
    match cfg {
        Some(c) => match c.tavily_api_key {
            Some(k) => k@,
            None => Seq::empty(),
        },
        None => Seq::empty(),
    }
}

/// How a web search is carried out: Tavily with its key (refused without
/// one), Bing, Baidu, or by default Bing with Baidu as the fallback.
pub open spec fn search_plan(cfg: Option<McpConfig>) -> (u8, Seq<char>) {
    let mode = mode_of(cfg);
    if mode == "tavily"@ {
        if tavily_key_of(cfg).len() == 0 {
            (4, "Tavily API key not configured"@)
        } else {
            (0, tavily_key_of(cfg))
        }
    } else if mode == "bing"@ {
        (1, Seq::empty())
    } else if mode == "baidu"@ {
        (2, Seq::empty())
    } else {
        (3, Seq::empty())
    }
}

/// Decides how a web search is carried out.
pub fn plan_search(cfg: &Option<McpConfig>) -> (r: SearchPlan)
    ensures
        plan_view(r) == search_plan(*cfg),
{
    let mode: String = match cfg {
        Some(c) => owned(c.search_mode.as_str()),
        None => owned("engine"),
    };
    let key: String = match cfg {
        Some(c) => match &c.tavily_api_key {
            Some(k) => owned(k.as_str()),
            None => String::new(),
        },
        None => String::new(),
    };
    proof {
        reveal_strlit("engine");
        reveal_strlit("tavily");
        reveal_strlit("bing");
        reveal_strlit("baidu");
    }
    if str_eq(mode.as_str(), "tavily") {
        if key.as_str().is_empty() {
            SearchPlan::Refused { message: owned("Tavily API key not configured") }
        } else {
            SearchPlan::Tavily { key }
        }
    } else if str_eq(mode.as_str(), "bing") {
        SearchPlan::Bing
    } else if str_eq(mode.as_str(), "baidu") {
        SearchPlan::Baidu
    } else {
        SearchPlan::BingThenBaidu
    }
}

/// Whether the default search falls back to Baidu: when Bing failed or
/// found nothing.
pub fn needs_fallback(bing_ok: bool, bing_hits: usize) -> (r: bool)
    ensures
        r == (!bing_ok || bing_hits == 0),
{
    !bing_ok || bing_hits == 0
}

/// An academic search service.
#[derive(PartialEq, Eq, Structural, Clone, Copy, Debug)]
pub enum AcademicEngine {
    Arxiv,
    Crossref,
    OpenAlex,
}

/// The service a name selects, if any.
pub open spec fn engine_named(n: Seq<char>) -> Option<AcademicEngine> {
    if n == "arxiv"@ {
        Some(AcademicEngine::Arxiv)
    } else if n == "crossref"@ {
        Some(AcademicEngine::Crossref)
    } else if n == "openalex"@ {
        Some(AcademicEngine::OpenAlex)
    } else {
        None
    }
}

/// The services named, in order, unknown names passed over.
pub open spec fn engines_named(ns: Seq<Seq<char>>) -> Seq<(AcademicEngine, Seq<char>)>
    decreases ns.len(),
{
    if ns.len() == 0 {
        Seq::empty()
    } else {
        match engine_named(ns.last()) {
            Some(e) => engines_named(ns.drop_last()).push((e, ns.last())),
            None => engines_named(ns.drop_last()),
        }
    }
}

/// The services an academic search asks, with the names they are counted
/// under: those named, or all three when none are named.
pub open spec fn academic_engines(filter: Option<Seq<Seq<char>>>) -> Seq<(AcademicEngine, Seq<char>)> {
    match filter {
        Some(ns) => engines_named(ns),
        None => seq![
            (AcademicEngine::Arxiv, "arxiv"@),
            (AcademicEngine::Crossref, "crossref"@),
            (AcademicEngine::OpenAlex, "openalex"@),
        ],
    }
}

/// Decides which services an academic search asks.
pub fn plan_academic(filter: &Option<Vec<String>>) -> (r: Vec<(AcademicEngine, String)>)
    ensures
        Seq::new(r@.len(), |i: int| (r@[i].0, r@[i].1@)) == academic_engines(
            match filter {
                Some(v) => Some(views(v@)),
                None => None,
            },
        ),
{
    proof {
        reveal_strlit("arxiv");
        reveal_strlit("crossref");
        reveal_strlit("openalex");
    }
    let mut out: Vec<(AcademicEngine, String)> = Vec::new();
    match filter {
        None => {
            out.push((AcademicEngine::Arxiv, owned("arxiv")));
            out.push((AcademicEngine::Crossref, owned("crossref")));
            out.push((AcademicEngine::OpenAlex, owned("openalex")));
            assert(Seq::new(out@.len(), |i: int| (out@[i].0, out@[i].1@)) =~= academic_engines(None));
        },
        Some(v) => {
            let ghost nv = views(v@);
            let mut i: usize = 0;
            assert(Seq::new(out@.len(), |k: int| (out@[k].0, out@[k].1@)) =~= engines_named(nv.take(0)));
            while i < v.len()
                invariant
                    i <= v@.len(),
                    nv == views(v@),
                    Seq::new(out@.len(), |k: int| (out@[k].0, out@[k].1@)) == engines_named(nv.take(i as int)),
                decreases v@.len() - i,
            {
                assert(nv.take(i + 1).drop_last() == nv.take(i as int));
                assert(nv.take(i + 1).last() == v@[i as int]@);
                let n = v[i].as_str();
                let e = if str_eq(n, "arxiv") {
                    Some(AcademicEngine::Arxiv)
                } else if str_eq(n, "crossref") {
                    Some(AcademicEngine::Crossref)
                } else if str_eq(n, "openalex") {
                    Some(AcademicEngine::OpenAlex)
                } else {
                    None
                };
                let ghost before = Seq::new(out@.len(), |k: int| (out@[k].0, out@[k].1@));
                match e {
                    Some(e) => {
                        out.push((e, owned(n)));
                        assert(Seq::new(out@.len(), |k: int| (out@[k].0, out@[k].1@)) =~= before.push((e, n@)));
                    },
                    None => {},
                }
                i = i + 1;
            }
            assert(nv.take(nv.len() as int) == nv);
        },
    }
    out
}

/// What a page fetch does after the direct attempt.
pub enum FetchPlan {
    UseDirect,
    Jina { key: String },
    Fail { message: String },
}

/// After the direct fetch: its content is used when it is longer than 100
/// bytes; otherwise Jina is asked when a key is configured, and the fetch
/// fails when none is.
pub open spec fn fetch_plan(direct_bytes: Option<nat>, jina_key: Seq<char>) -> (u8, Seq<char>) {
    match direct_bytes {
        Some(n) if n > 100 => (0, Seq::empty()),
        _ => if jina_key.len() > 0 {
            (1, jina_key)
        } else {
            (2, "Fetch failed and no Jina API key configured"@)
        },
    }
}

/// View of a fetch plan.
pub open spec fn fetch_view(p: FetchPlan) -> (u8, Seq<char>) {
    match p {
        FetchPlan::UseDirect => (0, Seq::empty()),
        FetchPlan::Jina { key } => (1, key@),
        FetchPlan::Fail { message } => (2, message@),
    }
}

/// Decides what a page fetch does after the direct attempt, given the
/// direct content (when it succeeded) and the configured Jina key.
pub fn plan_fetch(direct: &Option<String>, jina_key: &Option<String>) -> (r: FetchPlan)
    ensures
        fetch_view(r) == fetch_plan(
            match direct {
                Some(c) => Some(encode_utf8(c@).len()),
                None => None,
            },
            match jina_key {
                Some(k) => k@,
                None => Seq::empty(),
            },
        ),
{
    match direct {
        Some(c) => {
            if c.as_str().as_bytes().len() > 100 {
                return FetchPlan::UseDirect;
            }
        },
        None => {},
    }
    match jina_key {
        Some(k) => {
            if !k.as_str().is_empty() {
                return FetchPlan::Jina { key: owned(k.as_str()) };
            }
        },
        None => {},
    }
    FetchPlan::Fail { message: owned("Fetch failed and no Jina API key configured") }
}

/// The hit read from a result item that has a text `title` and `url`,
/// with its `content` (or nothing) as the snippet.
pub open spec fn content_hit(j: JVal) -> Option<(Seq<char>, Seq<char>, Seq<char>)> {
    match (str_of(field(j, "title"@)), str_of(field(j, "url"@))) {
        (Some(t), Some(u)) => Some((t, u, text_or(str_of(field(j, "content"@)), Seq::empty()))),
        _ => None,
    }
}

/// The hits read from result items, items lacking a title or URL passed
/// over.
pub open spec fn content_hits(items: Seq<JVal>) -> Seq<(Seq<char>, Seq<char>, Seq<char>)>
    decreases items.len(),
{
    if items.len() == 0 {
        Seq::empty()
    } else {
        match content_hit(items.last()) {
            Some(h) => content_hits(items.drop_last()).push(h),
            None => content_hits(items.drop_last()),
        }
    }
}

/// Reads the hits of a search service that answers with a `results` list
/// of items with `title`, `url` and `content` (Tavily, Baidu's search
/// API); an answer without that list is refused with `invalid`.
pub fn content_results(body: &JsonValue, invalid: &str) -> (r: Result<Vec<SearchResult>, String>)
    ensures
        match r {
            Ok(v) => elements_of(field(view_json(*body), "results"@)) matches Some(items) && hits_view(v@)
                == content_hits(items),
            Err(e) => elements_of(field(view_json(*body), "results"@)) is None && e@ == invalid@,
        },
{
    let items = match body.get("results") {
        Some(JsonValue::Array(items)) => items,
        _ => {
            return Err(owned(invalid));
        },
    };
    proof {
        lemma_view_array(*items);
    }
    let ghost iv = view_elements(items@);
    let mut out: Vec<SearchResult> = Vec::new();
    assert(hits_view(out@) =~= Seq::empty());
    let mut i: usize = 0;
    while i < items.len()
        invariant
            i <= items@.len(),
            iv == view_elements(items@),
            hits_view(out@) == content_hits(iv.take(i as int)),
        decreases items@.len() - i,
    {
        assert(iv.take(i + 1).drop_last() == iv.take(i as int));
        assert(iv.take(i + 1).last() == iv[i as int]);
        let it = &items[i];
        let t = field_str(Some(it), "title");
        let u = field_str(Some(it), "url");
        match (t, u) {
            (Some(t), Some(u)) => {
                let c = text_arg(Some(it), "content");
                let h = SearchResult { title: t, url: u, snippet: c };
                let ghost before = hits_view(out@);
                out.push(h);
                assert(hits_view(out@) =~= before.push(hit_view(h)));
            },
            _ => {},
        }
        i = i + 1;
    }
    assert(iv.take(iv.len() as int) == iv);
    Ok(out)
}

/// The text of `data.content` of a reader's answer.
pub open spec fn reader_content(body: JVal) -> Option<Seq<char>> {
    str_of(field_of(field(body, "data"@), "content"@))
}

/// Reads the page text of a Jina reader answer.
pub fn jina_content(body: &JsonValue) -> (r: Result<String, String>)
    ensures
        match r {
            Ok(t) => reader_content(view_json(*body)) == Some(t@),
            Err(e) => reader_content(view_json(*body)) is None && e@ == "Invalid Jina response"@,
        },
{
    match field_str(body.get("data"), "content") {
        Some(t) => Ok(t),
        None => Err(owned("Invalid Jina response")),
    }
}

/// A number that fits an `i64`, as `as_i64` reads it.
pub open spec fn i64_of(j: JVal) -> Option<i64> {
    match j {
        JVal::Number(JNum::PosInt(u)) => if u <= i64::MAX {
            Some(u as i64)
        } else {
            None
        },
        JVal::Number(JNum::NegInt(i)) => Some(i),
        _ => None,
    }
}

/// The decimal texts of the whole numbers among values.
pub open spec fn int_texts(vs: Seq<JVal>) -> Seq<Seq<char>>
    decreases vs.len(),
{
    if vs.len() == 0 {
        Seq::empty()
    } else {
        match i64_of(vs.last()) {
            Some(n) => int_texts(vs.drop_last()).push(int_text(n as int)),
            None => int_texts(vs.drop_last()),
        }
    }
}

/// The date of a Crossref item: the whole numbers of the first
/// `date-parts` list of `published-print` (or, when that is missing,
/// `published-online`), joined with `-`; empty when there is none.
pub open spec fn crossref_date(item: JVal) -> Seq<char> {
    let p = match field(item, "published-print"@) {
        Some(v) => Some(v),
        None => field(item, "published-online"@),
    };
    match elements_of(step_first(elements_of(field_of(p, "date-parts"@)))) {
        Some(parts) => join_with(int_texts(parts), "-"@),
        None => Seq::empty(),
    }
}

/// The first element of a list, if any.
pub open spec fn step_first(l: Option<Seq<JVal>>) -> Option<JVal> {
    match l {
        Some(a) => if a.len() > 0 {
            Some(a[0])
        } else {
            None
        },
        None => None,
    }
}

fn i64_of_exec(j: &JsonValue) -> (r: Option<i64>)
    ensures
        r == i64_of(view_json(*j)),
{
    match j {
        JsonValue::Number(JsonNumber::PosInt(u)) => if *u <= i64::MAX as u64 {
            Some(*u as i64)
        } else {
            None
        },
        JsonValue::Number(JsonNumber::NegInt(i)) => Some(*i),
        _ => None,
    }
}

/// Reads the date of a Crossref item.
pub fn extract_crossref_date(item: &JsonValue) -> (r: String)
    ensures
        r@ == crossref_date(view_json(*item)),
{
    let p = match item.get("published-print") {
        Some(v) => Some(v),
        None => item.get("published-online"),
    };
    let dp = match get_opt(p, "date-parts") {
        Some(JsonValue::Array(a)) => {
            proof {
                lemma_view_array(*a);
            }
            a
        },
        _ => {
            return String::new();
        },
    };
    if dp.len() == 0 {
        return String::new();
    }
    assert(view_elements(dp@)[0] == view_json(dp@[0]));
    let parts = match &dp[0] {
        JsonValue::Array(a) => {
            proof {
                lemma_view_array(*a);
            }
            a
        },
        _ => {
            return String::new();
        },
    };
    let ghost pv = view_elements(parts@);
    let mut texts: Vec<String> = Vec::new();
    assert(views(texts@) =~= Seq::empty());
    let mut i: usize = 0;
    while i < parts.len()
        invariant
            i <= parts@.len(),
            pv == view_elements(parts@),
            views(texts@) == int_texts(pv.take(i as int)),
        decreases parts@.len() - i,
    {
        assert(pv.take(i + 1).drop_last() == pv.take(i as int));
        assert(pv.take(i + 1).last() == pv[i as int]);
        match i64_of_exec(&parts[i]) {
            Some(n) => {
                let t = i64_text(n);
                let ghost before = views(texts@);
                texts.push(t);
                assert(views(texts@) =~= before.push(t@));
            },
            None => {},
        }
        i = i + 1;
    }
    assert(pv.take(pv.len() as int) == pv);
    join_strings(&texts, "-")
}

/// The authors of a Crossref item: `given family` of each author that has
/// both, joined with `, `.
pub open spec fn author_names(authors: Seq<JVal>) -> Seq<Seq<char>>
    decreases authors.len(),
{
    if authors.len() == 0 {
        Seq::empty()
    } else {
        let a = authors.last();
        match (str_of(field(a, "family"@)), str_of(field(a, "given"@))) {
            (Some(f), Some(g)) => author_names(authors.drop_last()).push(g + " "@ + f),
            _ => author_names(authors.drop_last()),
        }
    }
}

/// The paper read from a Crossref item that has a first title and a URL.
pub open spec fn crossref_paper(item: JVal) -> Option<(Seq<char>, Seq<char>, Seq<char>, Seq<char>, Seq<char>, Seq<char>)> {
    match (str_of(step_first(elements_of(field(item, "title"@)))), str_of(field(item, "URL"@))) {
        (Some(t), Some(u)) => Some(
            (
                t,
                u,
                match elements_of(field(item, "author"@)) {
                    Some(a) => join_with(author_names(a), ", "@),
                    None => Seq::empty(),
                },
                crossref_date(item),
                Seq::empty(),
                "Crossref"@,
            ),
        ),
        _ => None,
    }
}

/// The papers read from items, items that read as none passed over.
pub open spec fn papers_of(
    items: Seq<JVal>,
    f: spec_fn(JVal) -> Option<(Seq<char>, Seq<char>, Seq<char>, Seq<char>, Seq<char>, Seq<char>)>,
) -> Seq<(Seq<char>, Seq<char>, Seq<char>, Seq<char>, Seq<char>, Seq<char>)>
    decreases items.len(),
{
    if items.len() == 0 {
        Seq::empty()
    } else {
        match f(items.last()) {
            Some(p) => papers_of(items.drop_last(), f).push(p),
            None => papers_of(items.drop_last(), f),
        }
    }
}

fn crossref_authors(item: &JsonValue) -> (r: String)
    ensures
        r@ == match elements_of(field(view_json(*item), "author"@)) {
            Some(a) => join_with(author_names(a), ", "@),
            None => Seq::empty(),
        },
{
    let arr = match item.get("author") {
        Some(JsonValue::Array(a)) => {
            proof {
                lemma_view_array(*a);
            }
            a
        },
        _ => {
            return String::new();
        },
    };
    let ghost av = view_elements(arr@);
    let mut names: Vec<String> = Vec::new();
    assert(views(names@) =~= Seq::empty());
    let mut i: usize = 0;
    while i < arr.len()
        invariant
            i <= arr@.len(),
            av == view_elements(arr@),
            views(names@) == author_names(av.take(i as int)),
        decreases arr@.len() - i,
    {
        assert(av.take(i + 1).drop_last() == av.take(i as int));
        assert(av.take(i + 1).last() == av[i as int]);
        let a = &arr[i];
        match (field_str(Some(a), "family"), field_str(Some(a), "given")) {
            (Some(f), Some(g)) => {
                let mut n = g;
                n.push_str(" ");
                n.push_str(f.as_str());
                let ghost before = views(names@);
                names.push(n);
                assert(views(names@) =~= before.push(n@));
            },
            _ => {},
        }
        i = i + 1;
    }
    assert(av.take(av.len() as int) == av);
    join_strings(&names, ", ")
}

/// Reads the papers of a Crossref answer; an answer without a
/// `message.items` list is refused.
pub fn crossref_results(body: &JsonValue) -> (r: Result<Vec<AcademicResult>, String>)
    ensures
        match r {
            Ok(v) => elements_of(field_of(field(view_json(*body), "message"@), "items"@)) matches Some(items)
                && papers_view(v@) == papers_of(items, |j: JVal| crossref_paper(j)),
            Err(e) => elements_of(field_of(field(view_json(*body), "message"@), "items"@)) is None && e@
                == "Invalid Crossref response"@,
        },
{
    let items = match get_opt(body.get("message"), "items") {
        Some(JsonValue::Array(items)) => items,
        _ => {
            return Err(owned("Invalid Crossref response"));
        },
    };
    proof {
        lemma_view_array(*items);
    }
    let ghost iv = view_elements(items@);
    let ghost f = |j: JVal| crossref_paper(j);
    let mut out: Vec<AcademicResult> = Vec::new();
    assert(papers_view(out@) =~= Seq::empty());
    let mut i: usize = 0;
    while i < items.len()
        invariant
            i <= items@.len(),
            iv == view_elements(items@),
            f == (|j: JVal| crossref_paper(j)),
            papers_view(out@) == papers_of(iv.take(i as int), f),
        decreases items@.len() - i,
    {
        assert(iv.take(i + 1).drop_last() == iv.take(i as int));
        assert(iv.take(i + 1).last() == iv[i as int]);
        let it = &items[i];
        let title = match it.get("title") {
            Some(JsonValue::Array(ts)) => {
                proof {
                    lemma_view_array(*ts);
                }
                if ts.len() > 0 {
                    assert(view_elements(ts@)[0] == view_json(ts@[0]));
                    match ts[0].as_str() {
                        Some(t) => Some(owned(t)),
                        None => None,
                    }
                } else {
                    None
                }
            },
            _ => None,
        };
        let url = field_str(Some(it), "URL");
        match (title, url) {
            (Some(t), Some(u)) => {
                let p = AcademicResult {
                    title: t,
                    url: u,
                    authors: crossref_authors(it),
                    published: extract_crossref_date(it),
                    abstract_text: String::new(),
                    source: owned("Crossref"),
                };
                let ghost before = papers_view(out@);
                out.push(p);
                assert(papers_view(out@) =~= before.push(paper_view(p)));
            },
            _ => {},
        }
        i = i + 1;
    }
    assert(iv.take(iv.len() as int) == iv);
    Ok(out)
}

/// The word positions of an inverted abstract index, in member order:
/// each whole-number position of each word.
pub open spec fn word_positions(es: Seq<(Seq<char>, JVal)>) -> Seq<(u64, Seq<char>)>
    decreases es.len(),
{
    if es.len() == 0 {
        Seq::empty()
    } else {
        let prev = word_positions(es.drop_last());
        match es.last().1 {
            JVal::Array(ps) => prev + positions_of(ps, es.last().0),
            _ => prev,
        }
    }
}

/// The positions listed for one word.
pub open spec fn positions_of(ps: Seq<JVal>, w: Seq<char>) -> Seq<(u64, Seq<char>)>
    decreases ps.len(),
{
    if ps.len() == 0 {
        Seq::empty()
    } else {
        match u64_of(Some(ps.last())) {
            Some(p) => positions_of(ps.drop_last(), w).push((p, w)),
            None => positions_of(ps.drop_last(), w),
        }
    }
}

/// A word goes first when its position is smaller.
pub open spec fn position_before() -> spec_fn((u64, Seq<char>), (u64, Seq<char>)) -> bool {
    |a: (u64, Seq<char>), b: (u64, Seq<char>)| a.0 < b.0
}

/// The words of positioned words.
pub open spec fn words_of(s: Seq<(u64, Seq<char>)>) -> Seq<Seq<char>> {
    Seq::new(s.len(), |i: int| s[i].1)
}

/// The abstract an inverted index stands for: its words in order of
/// position (words at the same position in the order the index lists
/// them), joined with spaces; nothing when the index is not an object.
pub open spec fn abstract_of(idx: JVal) -> Option<Seq<char>> {
    match idx {
        JVal::Object(es) => Some(
            join_with(words_of(stable_sort(word_positions(es), position_before())), " "@),
        ),
        _ => None,
    }
}

/// Rebuilds an abstract from its inverted index.
pub fn reconstruct_abstract(idx: &JsonValue) -> (r: Option<String>)
    ensures
        match r {
            Some(t) => abstract_of(view_json(*idx)) == Some(t@),
            None => abstract_of(view_json(*idx)) is None,
        },
{
    let es = match idx {
        JsonValue::Object(es) => es,
        _ => {
            return None;
        },
    };
    proof {
        lemma_view_object(*es);
    }
    let ghost ev = view_members(es@);
    let mut pos: Vec<(u64, String)> = Vec::new();
    assert(Seq::new(pos@.len(), |k: int| (pos@[k].0, pos@[k].1@)) =~= Seq::<(u64, Seq<char>)>::empty());
    let mut i: usize = 0;
    while i < es.len()
        invariant
            i <= es@.len(),
            ev == view_members(es@),
            Seq::new(pos@.len(), |k: int| (pos@[k].0, pos@[k].1@)) == word_positions(ev.take(i as int)),
        decreases es@.len() - i,
    {
        assert(ev.take(i + 1).drop_last() == ev.take(i as int));
        assert(ev.take(i + 1).last() == ev[i as int]);
        match &es[i].1 {
            JsonValue::Array(ps) => {
                proof {
                    lemma_view_array(*ps);
                }
                let ghost pv = view_elements(ps@);
                let ghost base = Seq::new(pos@.len(), |k: int| (pos@[k].0, pos@[k].1@));
                let ghost w = es@[i as int].0@;
                let mut j: usize = 0;
                while j < ps.len()
                    invariant
                        j <= ps@.len(),
                        pv == view_elements(ps@),
                        w == es@[i as int].0@,
                        i < es@.len(),
                        Seq::new(pos@.len(), |k: int| (pos@[k].0, pos@[k].1@)) == base + positions_of(pv.take(j as int), w),
                    decreases ps@.len() - j,
                {
                    assert(pv.take(j + 1).drop_last() == pv.take(j as int));
                    assert(pv.take(j + 1).last() == pv[j as int]);
                    match ps[j].as_u64() {
                        Some(p) => {
                            let ghost before = Seq::new(pos@.len(), |k: int| (pos@[k].0, pos@[k].1@));
                            pos.push((p, owned(es[i].0.as_str())));
                            assert(Seq::new(pos@.len(), |k: int| (pos@[k].0, pos@[k].1@)) =~= before.push((p, w)));
                        },
                        None => {},
                    }
                    j = j + 1;
                }
                assert(pv.take(pv.len() as int) == pv);
            },
            _ => {},
        }
        i = i + 1;
    }
    assert(ev.take(ev.len() as int) == ev);
    let sorted = sort_positions(&pos);
    let mut words: Vec<String> = Vec::new();
    let ghost sv = Seq::new(sorted@.len(), |k: int| (sorted@[k].0, sorted@[k].1@));
    let mut k: usize = 0;
    while k < sorted.len()
        invariant
            k <= sorted@.len(),
            sv == Seq::new(sorted@.len(), |q: int| (sorted@[q].0, sorted@[q].1@)),
            views(words@) == words_of(sv).take(k as int),
        decreases sorted@.len() - k,
    {
        let ghost before = views(words@);
        words.push(owned(sorted[k].1.as_str()));
        assert(views(words@) =~= before.push(sv[k as int].1));
        assert(words_of(sv).take(k + 1) =~= words_of(sv).take(k as int).push(sv[k as int].1));
        k = k + 1;
    }
    assert(words_of(sv).take(sv.len() as int) =~= words_of(sv));
    Some(join_strings(&words, " "))
}

/// Orders positioned words by position, keeping the order of words at the
/// same position.
fn sort_positions(v: &Vec<(u64, String)>) -> (r: Vec<(u64, String)>)
    ensures
        Seq::new(r@.len(), |k: int| (r@[k].0, r@[k].1@)) == stable_sort(
            Seq::new(v@.len(), |k: int| (v@[k].0, v@[k].1@)),
            position_before(),
        ),
{
    let ghost sv = Seq::new(v@.len(), |k: int| (v@[k].0, v@[k].1@));
    let mut out: Vec<(u64, String)> = Vec::new();
    assert(sv.take(0) =~= Seq::<(u64, Seq<char>)>::empty());
    assert(Seq::new(out@.len(), |k: int| (out@[k].0, out@[k].1@)) =~= Seq::<(u64, Seq<char>)>::empty());
    let mut i: usize = 0;
    while i < v.len()
        invariant
            i <= v@.len(),
            sv == Seq::new(v@.len(), |k: int| (v@[k].0, v@[k].1@)),
            Seq::new(out@.len(), |k: int| (out@[k].0, out@[k].1@)) == stable_sort(sv.take(i as int), position_before()),
        decreases v@.len() - i,
    {
        let x = &v[i];
        let ghost o = Seq::new(out@.len(), |k: int| (out@[k].0, out@[k].1@));
        let ghost xv = (x.0, x.1@);
        let mut p: usize = 0;
        assert(o.skip(0) == o);
        while p < out.len() && !(x.0 < out[p].0)
            invariant
                p <= out@.len(),
                o == Seq::new(out@.len(), |k: int| (out@[k].0, out@[k].1@)),
                xv == (x.0, x.1@),
                leading_not_after(o, xv, position_before()) == p + leading_not_after(o.skip(p as int), xv, position_before()),
            decreases out@.len() - p,
        {
            assert(o.skip(p as int)[0] == o[p as int]);
            assert(o.skip(p as int).drop_first() == o.skip(p + 1));
            p = p + 1;
        }
        proof {
            if p < o.len() {
                assert(o.skip(p as int)[0] == o[p as int]);
            } else {
                assert(o.skip(p as int).len() == 0);
            }
        }
        out.insert(p, (x.0, owned(x.1.as_str())));
        assert(sv.take(i + 1).drop_last() == sv.take(i as int));
        assert(sv.take(i + 1).last() == sv[i as int]);
        assert(Seq::new(out@.len(), |k: int| (out@[k].0, out@[k].1@)) =~= o.insert(p as int, xv));
        i = i + 1;
    }
    assert(sv.take(sv.len() as int) == sv);
    out
}

/// The display names of OpenAlex authorships.
pub open spec fn display_names(a: Seq<JVal>) -> Seq<Seq<char>>
    decreases a.len(),
{
    if a.len() == 0 {
        Seq::empty()
    } else {
        match str_of(field_of(field(a.last(), "author"@), "display_name"@)) {
            Some(n) => display_names(a.drop_last()).push(n),
            None => display_names(a.drop_last()),
        }
    }
}

/// The link of an OpenAlex work: its DOI when it has a non-empty one, else
/// its id, else nothing.
pub open spec fn openalex_url(r: JVal) -> Seq<char> {
    match str_of(field(r, "doi"@)) {
        Some(d) => if d.len() > 0 {
            d
        } else {
            text_or(str_of(field(r, "id"@)), Seq::empty())
        },
        None => text_or(str_of(field(r, "id"@)), Seq::empty()),
    }
}

/// The paper read from an OpenAlex work that has a title.
pub open spec fn openalex_paper(r: JVal) -> Option<(Seq<char>, Seq<char>, Seq<char>, Seq<char>, Seq<char>, Seq<char>)> {
    match str_of(field(r, "title"@)) {
        Some(t) => Some(
            (
                t,
                openalex_url(r),
                match elements_of(field(r, "authorships"@)) {
                    Some(a) => join_with(display_names(a), ", "@),
                    None => Seq::empty(),
                },
                text_or(str_of(field(r, "publication_date"@)), Seq::empty()),
                match field(r, "abstract_inverted_index"@) {
                    Some(idx) => text_or(abstract_of(idx), Seq::empty()),
                    None => Seq::empty(),
                },
                "OpenAlex"@,
            ),
        ),
        None => None,
    }
}

fn openalex_authors(r: &JsonValue) -> (out: String)
    ensures
        out@ == match elements_of(field(view_json(*r), "authorships"@)) {
            Some(a) => join_with(display_names(a), ", "@),
            None => Seq::empty(),
        },
{
    let arr = match r.get("authorships") {
        Some(JsonValue::Array(a)) => {
            proof {
                lemma_view_array(*a);
            }
            a
        },
        _ => {
            return String::new();
        },
    };
    let ghost av = view_elements(arr@);
    let mut names: Vec<String> = Vec::new();
    assert(views(names@) =~= Seq::empty());
    let mut i: usize = 0;
    while i < arr.len()
        invariant
            i <= arr@.len(),
            av == view_elements(arr@),
            views(names@) == display_names(av.take(i as int)),
        decreases arr@.len() - i,
    {
        assert(av.take(i + 1).drop_last() == av.take(i as int));
        assert(av.take(i + 1).last() == av[i as int]);
        match field_str(arr[i].get("author"), "display_name") {
            Some(n) => {
                let ghost before = views(names@);
                names.push(n);
                assert(views(names@) =~= before.push(views(names@).last()));
            },
            None => {},
        }
        i = i + 1;
    }
    assert(av.take(av.len() as int) == av);
    join_strings(&names, ", ")
}

fn openalex_url_exec(r: &JsonValue) -> (out: String)
    ensures
        out@ == openalex_url(view_json(*r)),
{
    match field_str(Some(r), "doi") {
        Some(d) => {
            if !d.as_str().is_empty() {
                return d;
            }
        },
        None => {},
    }
    text_arg(Some(r), "id")
}

/// Reads the papers of an OpenAlex answer; an answer without a `results`
/// list is refused.
pub fn openalex_results(body: &JsonValue) -> (r: Result<Vec<AcademicResult>, String>)
    ensures
        match r {
            Ok(v) => elements_of(field(view_json(*body), "results"@)) matches Some(items) && papers_view(v@)
                == papers_of(items, |j: JVal| openalex_paper(j)),
            Err(e) => elements_of(field(view_json(*body), "results"@)) is None && e@ == "Invalid OpenAlex response"@,
        },
{
    let items = match body.get("results") {
        Some(JsonValue::Array(items)) => items,
        _ => {
            return Err(owned("Invalid OpenAlex response"));
        },
    };
    proof {
        lemma_view_array(*items);
    }
    let ghost iv = view_elements(items@);
    let ghost f = |j: JVal| openalex_paper(j);
    let mut out: Vec<AcademicResult> = Vec::new();
    assert(papers_view(out@) =~= Seq::empty());
    let mut i: usize = 0;
    while i < items.len()
        invariant
            i <= items@.len(),
            iv == view_elements(items@),
            f == (|j: JVal| openalex_paper(j)),
            papers_view(out@) == papers_of(iv.take(i as int), f),
        decreases items@.len() - i,
    {
        assert(iv.take(i + 1).drop_last() == iv.take(i as int));
        assert(iv.take(i + 1).last() == iv[i as int]);
        let it = &items[i];
        match field_str(Some(it), "title") {
            Some(t) => {
                let abs = match it.get("abstract_inverted_index") {
                    Some(idx) => match reconstruct_abstract(idx) {
                        Some(a) => a,
                        None => String::new(),
                    },
                    None => String::new(),
                };
                let p = AcademicResult {
                    title: t,
                    url: openalex_url_exec(it),
                    authors: openalex_authors(it),
                    published: text_arg(Some(it), "publication_date"),
                    abstract_text: abs,
                    source: owned("OpenAlex"),
                };
                let ghost before = papers_view(out@);
                out.push(p);
                assert(papers_view(out@) =~= before.push(paper_view(p)));
            },
            None => {},
        }
        i = i + 1;
    }
    assert(iv.take(iv.len() as int) == iv);
    Ok(out)
}

/// `s` with every occurrence of `p` replaced by `r`, scanning left to
/// right without overlaps, as `str::replace` does.
pub open spec fn replaced(s: Seq<char>, p: Seq<char>, r: Seq<char>) -> Seq<char>
    recommends
        p.len() > 0,
    decreases s.len(),
{
    if p.len() == 0 || s.len() < p.len() {
        s
    } else if s.take(p.len() as int) == p {
        r + replaced(s.skip(p.len() as int), p, r)
    } else {
        seq![s[0]] + replaced(s.skip(1), p, r)
    }
}

/// Replaces every occurrence of a non-empty pattern.
pub fn replace_text(s: &str, p: &str, r: &str) -> (out: String)
    requires
        p@.len() > 0,
    ensures
        out@ == replaced(s@, p@, r@),
{
    let cs = chars_of(s);
    let ps = chars_of(p);
    let mut out = String::new();
    let mut i: usize = 0;
    assert(cs@.skip(0) == cs@);
    while i < cs.len()
        invariant
            i <= cs@.len(),
            cs@ == s@,
            ps@ == p@,
            ps@.len() > 0,
            out@ + replaced(cs@.skip(i as int), ps@, r@) == replaced(s@, p@, r@),
        decreases cs@.len() - i,
    {
        let ghost rest = cs@.skip(i as int);
        if cs.len() - i >= ps.len() && crate::text::occurs_at_exec(cs.as_slice(), ps.as_slice(), i) {
            assert(rest.take(ps@.len() as int) =~= cs@.subrange(i as int, i + ps@.len()));
            assert(rest.skip(ps@.len() as int) =~= cs@.skip(i + ps@.len()));
            out.push_str(r);
            i = i + ps.len();
        } else {
            proof {
                if rest.len() >= ps@.len() {
                    assert(rest.take(ps@.len() as int) =~= cs@.subrange(i as int, i + ps@.len()));
                }
            }
            assert(rest.skip(1) =~= cs@.skip(i + 1));
            assert(rest[0] == cs@[i as int]);
            let ghost before = out@;
            out.push(cs[i]);
            proof {
                if rest.len() < ps@.len() {
                    assert(replaced(rest, ps@, r@) == rest);
                    assert(replaced(cs@.skip(i + 1), ps@, r@) == cs@.skip(i + 1)) by {
                        assert(cs@.skip(i + 1).len() < ps@.len());
                    }
                    assert(rest =~= seq![rest[0]] + cs@.skip(i + 1));
                }
            }
            assert(out@ + replaced(cs@.skip(i + 1), ps@, r@) == before + replaced(rest, ps@, r@));
            i = i + 1;
        }
    }
    assert(cs@.skip(i as int).len() == 0);
    assert(out@ + Seq::<char>::empty() == out@);
    out
}

/// Name for what `Regex::replace_all` returns for a pattern, a text and a
/// replacement (with `$` group references expanded).
pub uninterp spec fn regex_replaced(pattern: Seq<char>, text: Seq<char>, rep: Seq<char>) -> Seq<char>;

/// Name for the texts of the successive non-overlapping matches that
/// `Regex::find_iter` yields for a pattern in a text.
pub uninterp spec fn regex_found(pattern: Seq<char>, text: Seq<char>) -> Seq<Seq<char>>;

/// Name for the groups of the first match that `Regex::captures` finds
/// for a pattern in a text (group 0 being the whole match), or nothing
/// when there is no match.
pub uninterp spec fn regex_groups(pattern: Seq<char>, text: Seq<char>) -> Option<Seq<Option<Seq<char>>>>;

/// Name for whether `regex::Regex::new` accepts a pattern (with the
/// crate's default settings): it depends on the pattern alone.
pub uninterp spec fn regex_accepts(pattern: Seq<char>) -> bool;

/// Compiles `pattern` with `regex::Regex::new` and calls `replace_all`:
/// nothing when the crate refuses the pattern, else the named result.
#[verifier::external_body]
fn regex_replace_all(pattern: &str, text: &str, rep: &str) -> (r: Option<String>)
    ensures
        r is Some <==> regex_accepts(pattern@),
        r matches Some(t) ==> t@ == regex_replaced(pattern@, text@, rep@),
{
    regex::Regex::new(pattern).ok().map(|re| re.replace_all(text, rep).into_owned())
}

/// Compiles `pattern` with `regex::Regex::new` and collects the texts that
/// `find_iter` yields: nothing when the crate refuses the pattern, else the
/// named result.
#[verifier::external_body]
fn regex_find_all(pattern: &str, text: &str) -> (r: Option<Vec<String>>)
    ensures
        r is Some <==> regex_accepts(pattern@),
        r matches Some(v) ==> views(v@) == regex_found(pattern@, text@),
{
    regex::Regex::new(pattern).ok().map(|re| re.find_iter(text).map(|m| m.as_str().to_string()).collect())
}

/// Compiles `pattern` with `regex::Regex::new` and calls `captures`:
/// nothing when the crate refuses the pattern, else the named groups.
#[verifier::external_body]
fn regex_captures(pattern: &str, text: &str) -> (r: Option<Option<Vec<Option<String>>>>)
    ensures
        r is Some <==> regex_accepts(pattern@),
        r matches Some(c) ==> match c {
            Some(g) => regex_groups(pattern@, text@) == Some(
                Seq::new(
                    g@.len(),
                    |i: int|
                        match g@[i] {
                            Some(t) => Some(t@),
                            None => None,
                        },
                ),
            ),
            None => regex_groups(pattern@, text@) is None,
        },
{
    regex::Regex::new(pattern).ok().map(
        |re| re.captures(text).map(|c| c.iter().map(|m| m.map(|m| m.as_str().to_string())).collect()),
    )
}

/// The pattern of an HTML tag.
pub open spec fn tag_pattern() -> Seq<char> {
    "<[^>]+>"@
}

/// Text with the common HTML entities decoded, in the order `&amp;`,
/// `&lt;`, `&gt;`, `&quot;`, `&nbsp;`, `&#39;`.
pub open spec fn entities_decoded(t: Seq<char>) -> Seq<char> {
    replaced(
        replaced(
            replaced(replaced(replaced(replaced(t, "&amp;"@, "&"@), "&lt;"@, "<"@), "&gt;"@, ">"@), "&quot;"@, "\""@),
            "&nbsp;"@,
            " "@,
        ),
        "&#39;"@,
        "'"@,
    )
}

/// Decodes the common HTML entities.
pub fn decode_entities(t: &str) -> (r: String)
    ensures
        r@ == entities_decoded(t@),
{
    proof {
        reveal_strlit("&amp;");
        reveal_strlit("&lt;");
        reveal_strlit("&gt;");
        reveal_strlit("&quot;");
        reveal_strlit("&nbsp;");
        reveal_strlit("&#39;");
    }
    let a = replace_text(t, "&amp;", "&");
    let b = replace_text(a.as_str(), "&lt;", "<");
    let c = replace_text(b.as_str(), "&gt;", ">");
    let d = replace_text(c.as_str(), "&quot;", "\"");
    let e = replace_text(d.as_str(), "&nbsp;", " ");
    replace_text(e.as_str(), "&#39;", "'")
}

/// HTML made plain: tags removed, entities decoded, white space trimmed.
pub open spec fn tags_stripped(html: Seq<char>) -> Seq<char> {
    trim(entities_decoded(regex_replaced(tag_pattern(), html, Seq::empty())))
}

/// Makes HTML plain; nothing exactly when the tag pattern is refused.
pub fn strip_html_tags(html: &str) -> (r: Option<String>)
    ensures
        r is Some <==> regex_accepts(tag_pattern()),
        r matches Some(t) ==> t@ == tags_stripped(html@),
{
    let p = owned("<[^>]+>");
    proof {
        reveal_strlit("");
        assert(""@ =~= Seq::<char>::empty());
    }
    assert(p@ == tag_pattern());
    match regex_replace_all(p.as_str(), html, "") {
        Some(t) => {
            let d = decode_entities(t.as_str());
            Some(trim_string(d.as_str()))
        },
        None => None,
    }
}

/// The pattern of one Bing result block.
pub open spec fn bing_block_pattern() -> Seq<char> {
    "(?s)<li class=\"b_algo\"[^>]*>.*?</li>"@
}

/// The pattern of a Bing result's link: its URL and title.
pub open spec fn bing_link_pattern() -> Seq<char> {
    "(?s)<h2>\\s*<a[^>]+href=\"(https?://[^\"]+)\"[^>]*>(.*?)</a>"@
}

/// The pattern of a Bing result's snippet.
pub open spec fn bing_snippet_pattern() -> Seq<char> {
    "(?s)<p class=\"b_lineclamp[^\"]*\"[^>]*>(.*?)</p>"@
}

/// Group `k` of a match, when it took part.
pub open spec fn group(g: Option<Seq<Option<Seq<char>>>>, k: int) -> Option<Seq<char>> {
    match g {
        Some(gs) => if 0 <= k < gs.len() {
            gs[k]
        } else {
            None
        },
        None => None,
    }
}

/// The hit of a Bing result block: its link's URL, its plain title and
/// plain snippet (or nothing), when the title is not blank.
pub open spec fn bing_hit(block: Seq<char>) -> Option<(Seq<char>, Seq<char>, Seq<char>)> {
    let link = regex_groups(bing_link_pattern(), block);
    match (group(link, 1), group(link, 2)) {
        (Some(url), Some(raw)) => {
            let title = tags_stripped(raw);
            let snippet = match group(regex_groups(bing_snippet_pattern(), block), 1) {
                Some(x) => tags_stripped(x),
                None => Seq::empty(),
            };
            if trim(title).len() > 0 {
                Some((title, url, snippet))
            } else {
                None
            }
        },
        _ => None,
    }
}

/// The hits of Bing result blocks.
pub open spec fn bing_hits(blocks: Seq<Seq<char>>) -> Seq<(Seq<char>, Seq<char>, Seq<char>)>
    decreases blocks.len(),
{
    if blocks.len() == 0 {
        Seq::empty()
    } else {
        match bing_hit(blocks.last()) {
            Some(h) => bing_hits(blocks.drop_last()).push(h),
            None => bing_hits(blocks.drop_last()),
        }
    }
}

fn group_exec(g: &Option<Vec<Option<String>>>, k: usize) -> (r: Option<String>)
    ensures
        match r {
            Some(t) => group(groups_view(*g), k as int) == Some(t@),
            None => group(groups_view(*g), k as int) is None,
        },
{
    match g {
        Some(gs) => if k < gs.len() {
            match &gs[k] {
                Some(t) => Some(owned(t.as_str())),
                None => None,
            }
        } else {
            None
        },
        None => None,
    }
}

/// View of captured groups.
pub open spec fn groups_view(g: Option<Vec<Option<String>>>) -> Option<Seq<Option<Seq<char>>>> {
    match g {
        Some(gs) => Some(
            Seq::new(
                gs@.len(),
                |i: int|
                    match gs@[i] {
                        Some(t) => Some(t@),
                        None => None,
                    },
            ),
        ),
        None => None,
    }
}

/// Whether the patterns a Bing result block is read with are accepted:
/// the link pattern, and for a block with a link, the tag pattern (for its
/// title and snippet) and the snippet pattern.
pub open spec fn bing_block_readable(block: Seq<char>) -> bool {
    let link = regex_groups(bing_link_pattern(), block);
    &&& regex_accepts(bing_link_pattern())
    &&& (group(link, 1) is Some && group(link, 2) is Some) ==> regex_accepts(tag_pattern()) && regex_accepts(
        bing_snippet_pattern(),
    )
}

/// Whether a Bing result page can be read: the block pattern is accepted
/// and every block it finds is readable.
pub open spec fn bing_page_readable(html: Seq<char>) -> bool {
    &&& regex_accepts(bing_block_pattern())
    &&& forall|i: int|
        0 <= i < regex_found(bing_block_pattern(), html).len() ==> #[trigger] bing_block_readable(
            regex_found(bing_block_pattern(), html)[i],
        )
}

/// Reads the hits of a Bing result page; nothing exactly when a pattern
/// needed for it is refused.
pub fn parse_bing_html(html: &str) -> (r: Option<Vec<SearchResult>>)
    ensures
        r is Some <==> bing_page_readable(html@),
        r matches Some(v) ==> hits_view(v@) == bing_hits(regex_found(bing_block_pattern(), html@)),
{
    let bp = owned("(?s)<li class=\"b_algo\"[^>]*>.*?</li>");
    let lp = owned("(?s)<h2>\\s*<a[^>]+href=\"(https?://[^\"]+)\"[^>]*>(.*?)</a>");
    let sp = owned("(?s)<p class=\"b_lineclamp[^\"]*\"[^>]*>(.*?)</p>");
    assert(bp@ == bing_block_pattern());
    assert(lp@ == bing_link_pattern());
    assert(sp@ == bing_snippet_pattern());
    let blocks = match regex_find_all(bp.as_str(), html) {
        Some(b) => b,
        None => {
            return None;
        },
    };
    let ghost bv = views(blocks@);
    assert(bv == regex_found(bing_block_pattern(), html@));
    let mut out: Vec<SearchResult> = Vec::new();
    assert(hits_view(out@) =~= Seq::empty());
    let mut i: usize = 0;
    while i < blocks.len()
        invariant
            i <= blocks@.len(),
            bv == views(blocks@),
            lp@ == bing_link_pattern(),
            sp@ == bing_snippet_pattern(),
            hits_view(out@) == bing_hits(bv.take(i as int)),
            bv == regex_found(bing_block_pattern(), html@),
            regex_accepts(bing_block_pattern()),
            forall|j: int| 0 <= j < i ==> #[trigger] bing_block_readable(bv[j]),
        decreases blocks@.len() - i,
    {
        assert(bv.take(i + 1).drop_last() == bv.take(i as int));
        assert(bv.take(i + 1).last() == blocks@[i as int]@);
        let block = blocks[i].as_str();
        assert(bv[i as int] == block@);
        let link = match regex_captures(lp.as_str(), block) {
            Some(c) => c,
            None => {
                assert(!bing_block_readable(bv[i as int]));
                return None;
            },
        };
        assert(groups_view(link) == regex_groups(bing_link_pattern(), block@));
        match (group_exec(&link, 1), group_exec(&link, 2)) {
            (Some(url), Some(raw)) => {
                let title = match strip_html_tags(raw.as_str()) {
                    Some(t) => t,
                    None => {
                        assert(!bing_block_readable(bv[i as int]));
                        return None;
                    },
                };
                let snip = match regex_captures(sp.as_str(), block) {
                    Some(c) => c,
                    None => {
                        assert(!bing_block_readable(bv[i as int]));
                        return None;
                    },
                };
                assert(groups_view(snip) == regex_groups(bing_snippet_pattern(), block@));
                let snippet = match group_exec(&snip, 1) {
                    Some(x) => match strip_html_tags(x.as_str()) {
                        Some(t) => t,
                        None => {
                            return None;
                        },
                    },
                    None => String::new(),
                };
                let tt = trim_string(title.as_str());
                if !tt.as_str().is_empty() {
                    let h = SearchResult { title, url, snippet };
                    let ghost before = hits_view(out@);
                    out.push(h);
                    assert(hits_view(out@) =~= before.push(hit_view(h)));
                }
            },
            _ => {},
        }
        assert(bing_block_readable(bv[i as int]));
        i = i + 1;
    }
    assert(bv.take(bv.len() as int) == bv);
    Some(out)
}

/// The hit of a Baidu result entry that has a text title and URL: the
/// plain title, the URL, and the plain `abs` (or nothing).
pub open spec fn baidu_hit(e: JVal) -> Option<(Seq<char>, Seq<char>, Seq<char>)> {
    match (str_of(field(e, "title"@)), str_of(field(e, "url"@))) {
        (Some(t), Some(u)) => Some(
            (
                tags_stripped(t),
                u,
                match str_of(field(e, "abs"@)) {
                    Some(a) => tags_stripped(a),
                    None => Seq::empty(),
                },
            ),
        ),
        _ => None,
    }
}

/// The hits of Baidu result entries.
pub open spec fn baidu_hits(es: Seq<JVal>) -> Seq<(Seq<char>, Seq<char>, Seq<char>)>
    decreases es.len(),
{
    if es.len() == 0 {
        Seq::empty()
    } else {
        match baidu_hit(es.last()) {
            Some(h) => baidu_hits(es.drop_last()).push(h),
            None => baidu_hits(es.drop_last()),
        }
    }
}

/// Whether a Baidu result entry can be read: one with a text title and URL
/// needs the tag pattern.
pub open spec fn baidu_entry_readable(e: JVal) -> bool {
    (str_of(field(e, "title"@)) is Some && str_of(field(e, "url"@)) is Some) ==> regex_accepts(tag_pattern())
}

/// Reads the hits of a Baidu result page in JSON form; an answer without
/// a `feed.entry` list is refused.  Nothing exactly when an entry with a
/// title and URL is met while the tag pattern is refused.
pub fn baidu_results(body: &JsonValue) -> (r: Option<Result<Vec<SearchResult>, String>>)
    ensures
        r is Some <==> match elements_of(field_of(field(view_json(*body), "feed"@), "entry"@)) {
            Some(es) => forall|i: int| 0 <= i < es.len() ==> #[trigger] baidu_entry_readable(es[i]),
            None => true,
        },
        r matches Some(res) ==> match res {
            Ok(v) => elements_of(field_of(field(view_json(*body), "feed"@), "entry"@)) matches Some(es)
                && hits_view(v@) == baidu_hits(es),
            Err(e) => elements_of(field_of(field(view_json(*body), "feed"@), "entry"@)) is None && e@
                == "Invalid Baidu response format"@,
        },
{
    let entries = match get_opt(body.get("feed"), "entry") {
        Some(JsonValue::Array(es)) => es,
        _ => {
            return Some(Err(owned("Invalid Baidu response format")));
        },
    };
    proof {
        lemma_view_array(*entries);
    }
    let ghost ev = view_elements(entries@);
    let mut out: Vec<SearchResult> = Vec::new();
    assert(hits_view(out@) =~= Seq::empty());
    let mut i: usize = 0;
    while i < entries.len()
        invariant
            i <= entries@.len(),
            ev == view_elements(entries@),
            ev == elements_of(field_of(field(view_json(*body), "feed"@), "entry"@))->0,
            elements_of(field_of(field(view_json(*body), "feed"@), "entry"@)) is Some,
            hits_view(out@) == baidu_hits(ev.take(i as int)),
            forall|j: int| 0 <= j < i ==> #[trigger] baidu_entry_readable(ev[j]),
        decreases entries@.len() - i,
    {
        assert(ev.take(i + 1).drop_last() == ev.take(i as int));
        assert(ev.take(i + 1).last() == ev[i as int]);
        let e = &entries[i];
        assert(ev[i as int] == view_json(*e));
        match (field_str(Some(e), "title"), field_str(Some(e), "url")) {
            (Some(t), Some(u)) => {
                let title = match strip_html_tags(t.as_str()) {
                    Some(x) => x,
                    None => {
                        assert(!baidu_entry_readable(ev[i as int]));
                        return None;
                    },
                };
                let snippet = match field_str(Some(e), "abs") {
                    Some(a) => match strip_html_tags(a.as_str()) {
                        Some(x) => x,
                        None => {
                            return None;
                        },
                    },
                    None => String::new(),
                };
                let h = SearchResult { title, url: u, snippet };
                let ghost before = hits_view(out@);
                out.push(h);
                assert(hits_view(out@) =~= before.push(hit_view(h)));
            },
            _ => {},
        }
        assert(baidu_entry_readable(ev[i as int]));
        i = i + 1;
    }
    assert(ev.take(ev.len() as int) == ev);
    Some(Ok(out))
}

/// The pattern of page parts that carry no content.
pub open spec fn chrome_pattern() -> Seq<char> {
    "(?si)<(script|style|nav|header|footer)[^>]*>.*?</\\1>"@
}

/// The pattern of tags that end a line.
pub open spec fn break_pattern() -> Seq<char> {
    "(?si)<(br|/p|/div|/h[1-6]|/li|/tr)[^>]*>"@
}

/// The pattern of three or more line breaks.
pub open spec fn blank_lines_pattern() -> Seq<char> {
    "\\n{3,}"@
}

/// The text of an HTML page: scripts, styles and page chrome removed,
/// line-ending tags made line breaks, other tags removed, entities
/// decoded, runs of blank lines shortened to one, white space trimmed.
pub open spec fn page_text(html: Seq<char>) -> Seq<char> {
    let t1 = regex_replaced(chrome_pattern(), html, Seq::empty());
    let t2 = regex_replaced(break_pattern(), t1, "\n"@);
    let t3 = regex_replaced(tag_pattern(), t2, Seq::empty());
    let t4 = entities_decoded(t3);
    trim(regex_replaced(blank_lines_pattern(), t4, "\n\n"@))
}

/// Extracts the text of an HTML page; nothing when one of the patterns is
/// refused, which the regex crate does for the first one, as it does not
/// support back references.
pub fn html_to_text(html: &str) -> (r: Option<String>)
    ensures
        r is Some <==> (regex_accepts(chrome_pattern()) && regex_accepts(break_pattern()) && regex_accepts(
            tag_pattern(),
        ) && regex_accepts(blank_lines_pattern())),
        r matches Some(t) ==> t@ == page_text(html@),
{
    proof {
        reveal_strlit("");
        assert(""@ =~= Seq::<char>::empty());
    }
    let p1 = owned("(?si)<(script|style|nav|header|footer)[^>]*>.*?</\\1>");
    let p2 = owned("(?si)<(br|/p|/div|/h[1-6]|/li|/tr)[^>]*>");
    let p3 = owned("<[^>]+>");
    let p4 = owned("\\n{3,}");
    assert(p1@ == chrome_pattern());
    assert(p2@ == break_pattern());
    assert(p3@ == tag_pattern());
    assert(p4@ == blank_lines_pattern());
    let t1 = regex_replace_all(p1.as_str(), html, "");
    let t1 = match t1 {
        Some(t) => t,
        None => {
            return None;
        },
    };
    let t2 = match regex_replace_all(p2.as_str(), t1.as_str(), "\n") {
        Some(t) => t,
        None => {
            return None;
        },
    };
    let t3 = match regex_replace_all(p3.as_str(), t2.as_str(), "") {
        Some(t) => t,
        None => {
            return None;
        },
    };
    let t4 = decode_entities(t3.as_str());
    let t5 = match regex_replace_all(p4.as_str(), t4.as_str(), "\n\n") {
        Some(t) => t,
        None => {
            return None;
        },
    };
    Some(trim_string(t5.as_str()))
}

/// What a host names, as the address parser reads it.
pub enum HostAddress {
    V4 { private: bool, loopback: bool, link_local: bool, broadcast: bool, unspecified: bool },
    V6 { loopback: bool, unspecified: bool },
    Name,
}

/// Whether a host is private: an IPv4 address that is private, loopback,
/// link-local, broadcast or unspecified; an IPv6 address that is loopback
/// or unspecified; or a name that is `localhost` or ends in `.local` or
/// `.internal`.
pub open spec fn private_host(host: Seq<char>, addr: HostAddress) -> bool {
    match addr {
        HostAddress::V4 { private, loopback, link_local, broadcast, unspecified } => private || loopback
            || link_local || broadcast || unspecified,
        HostAddress::V6 { loopback, unspecified } => loopback || unspecified,
        HostAddress::Name => host == "localhost"@ || has_suffix(host, ".local"@) || has_suffix(
            host,
            ".internal"@,
        ),
    }
}

/// Decides whether a host is private.
pub fn is_private_ip(host: &str, addr: &HostAddress) -> (r: bool)
    ensures
        r == private_host(host@, *addr),
{
    match addr {
        HostAddress::V4 { private, loopback, link_local, broadcast, unspecified } => *private || *loopback
            || *link_local || *broadcast || *unspecified,
        HostAddress::V6 { loopback, unspecified } => *loopback || *unspecified,
        HostAddress::Name => {
            let cs = chars_of(host);
            let l = chars_of(".local");
            let n = chars_of(".internal");
            str_eq(host, "localhost") || crate::text::ends_with(cs.as_slice(), l.as_slice())
                || crate::text::ends_with(cs.as_slice(), n.as_slice())
        },
    }
}

} // verus!
