use vstd::prelude::*;

use crate::json::{
    bool_of, element, elements_of, field, field_of, get_opt, json_text, lemma_view_array,
    lemma_view_object, obj_lookup, parse_json, parsed_json, str_of, u64_of, view_elements,
    view_json, view_members, write_json, JVal, JsonValue, step_zero, get_step_zero,
};
use crate::tally::{stats_view, tally, tally_add, ToolCallStat};
use crate::text::{
    concat, copy_string, owned, str_eq, take_chars, take_chars_exec, views,
};
use crate::usage::{first_present, or_zero};
use crate::numfmt::{dec_text, u64_text};
use crate::order::{
    insert_sorted, lemma_str_lt_irreflexive, lemma_str_lt_transitive, sorted_distinct, sorted_insert, str_less, str_lt,
};
use crate::seqs::{lemma_stable_sort_sorted, leading_not_after, sorted_by, stable_sort};
use crate::text::{join_strings, join_with};
use vstd::string::StringSliceAdditionalSpecFns;
use vstd::utf8::{decode_utf8, encode_utf8, is_char_boundary};

verus! {

/// One message of a session, as shown in the session browser.
pub struct SessionMessage {
    pub uuid: String,
    pub msg_type: String,
    pub timestamp: String,
    pub model: Option<String>,
    pub text: String,
    pub thinking: Option<String>,
    pub has_tool_use: bool,
    pub tool_name: Option<String>,
    pub tool_input_preview: Option<String>,
    pub input_tokens: u64,
    pub output_tokens: u64,
}

/// Mathematical view of a [`SessionMessage`].
pub ghost struct MsgV {
    pub uuid: Seq<char>,
    pub msg_type: Seq<char>,
    pub timestamp: Seq<char>,
    pub model: Option<Seq<char>>,
    pub text: Seq<char>,
    pub thinking: Option<Seq<char>>,
    pub has_tool_use: bool,
    pub tool_name: Option<Seq<char>>,
    pub tool_input_preview: Option<Seq<char>>,
    pub input_tokens: u64,
    pub output_tokens: u64,
}

/// The view of an optional string.
pub open spec fn ostr(o: Option<String>) -> Option<Seq<char>> {
    match o {
        Some(s) => Some(s@),
        None => None,
    }
}

impl SessionMessage {
    pub open spec fn view(&self) -> MsgV {
        MsgV {
            uuid: self.uuid@,
            msg_type: self.msg_type@,
            timestamp: self.timestamp@,
            model: ostr(self.model),
            text: self.text@,
            thinking: ostr(self.thinking),
            has_tool_use: self.has_tool_use,
            tool_name: ostr(self.tool_name),
            tool_input_preview: ostr(self.tool_input_preview),
            input_tokens: self.input_tokens,
            output_tokens: self.output_tokens,
        }
    }
}

/// Views of messages.
pub open spec fn msgs_view(s: Seq<SessionMessage>) -> Seq<MsgV> {
    Seq::new(s.len(), |i: int| s[i]@)
}

/// The text under `key`, or empty.
pub open spec fn text_of(j: JVal, key: Seq<char>) -> Seq<char> {
    match str_of(field(j, key)) {
        Some(t) => t,
        None => Seq::empty(),
    }
}

/// The text under `key` of a value, or empty.
pub fn text_at(j: &JsonValue, key: &str) -> (r: String)
    ensures
        r@ == text_of(view_json(*j), key@),
{
    match j.get(key) {
        Some(x) => match x.as_str() {
            Some(t) => owned(t),
            None => String::new(),
        },
        None => String::new(),
    }
}

/// The parts of a message: `message.parts` when it is a list.
pub open spec fn parts_of(j: JVal) -> Option<Seq<JVal>> {
    elements_of(field_of(field(j, "message"@), "parts"@))
}

/// Text with one more piece, on a new line unless the text is empty.
pub open spec fn append_line(text: Seq<char>, t: Seq<char>) -> Seq<char> {
    if text.len() == 0 {
        t
    } else {
        text + seq!['\n'] + t
    }
}

/// Appends a piece on a new line.
fn append_line_exec(text: &mut String, t: &str)
    ensures
        final(text)@ == append_line(old(text)@, t@),
{
    if !text.as_str().is_empty() {
        text.push('\n');
    }
    text.push_str(t);
}

/// The tokens of an assistant message: `usageMetadata.promptTokenCount`
/// and `candidatesTokenCount`, zero where absent.
pub open spec fn message_tokens(j: JVal) -> (u64, u64) {
    match field(j, "usageMetadata"@) {
        Some(u) => (
            or_zero(u64_of(field(u, "promptTokenCount"@))),
            or_zero(u64_of(field(u, "candidatesTokenCount"@))),
        ),
        None => (0, 0),
    }
}

/// Reads the tokens of a message.
fn message_tokens_exec(j: &JsonValue) -> (r: (u64, u64))
    ensures
        r == message_tokens(view_json(*j)),
{
    let u = j.get("usageMetadata");
    match u {
        Some(_) => {
            let i = match crate::json::field_u64(u, "promptTokenCount") {
                Some(v) => v,
                None => 0,
            };
            let o = match crate::json::field_u64(u, "candidatesTokenCount") {
                Some(v) => v,
                None => 0,
            };
            (i, o)
        },
        None => (0, 0),
    }
}

/// The short preview of a tool call's input: `$ ` and the command (120
/// characters), else the file path (or path), else, in the detailed view,
/// the description (100 characters), else the input's JSON text (100
/// characters).
pub open spec fn input_preview(inp: JVal, detailed: bool) -> Seq<char> {
    match inp {
        JVal::Object(es) => match str_of(obj_lookup(es, "command"@)) {
            Some(c) => "$ "@ + take_chars(c, 120),
            None => match str_of(first_present(obj_lookup(es, "file_path"@), obj_lookup(es, "path"@))) {
                Some(fp) => fp,
                None => if detailed {
                    match str_of(obj_lookup(es, "description"@)) {
                        Some(d) => take_chars(d, 100),
                        None => take_chars(json_text(inp), 100),
                    }
                } else {
                    take_chars(json_text(inp), 100)
                },
            },
        },
        _ => take_chars(json_text(inp), 100),
    }
}

/// Writes the preview of a tool call's input.
fn input_preview_exec(inp: &JsonValue, detailed: bool) -> (r: String)
    ensures
        r@ == input_preview(view_json(*inp), detailed),
{
    match inp {
        JsonValue::Object(m) => {
            proof {
                lemma_view_object(*m);
            }
            let cmd = inp.get("command");
            if let Some(c) = cmd {
                if let Some(t) = c.as_str() {
                    return concat("$ ", take_chars_exec(t, 120).as_str());
                }
            }
            let fp = match inp.get("file_path") {
                Some(x) => Some(x),
                None => inp.get("path"),
            };
            if let Some(x) = fp {
                if let Some(t) = x.as_str() {
                    return owned(t);
                }
            }
            if detailed {
                if let Some(d) = inp.get("description") {
                    if let Some(t) = d.as_str() {
                        return take_chars_exec(t, 100);
                    }
                }
            }
            let text = write_json(inp);
            take_chars_exec(text.as_str(), 100)
        },
        _ => {
            let text = write_json(inp);
            take_chars_exec(text.as_str(), 100)
        },
    }
}

/// What the parts of an assistant message contribute.
pub ghost struct PartsV {
    pub text: Seq<char>,
    pub thinking: Option<Seq<char>>,
    pub has_tool_use: bool,
    pub tool_name: Option<Seq<char>>,
    pub preview: Option<Seq<char>>,
}

/// Nothing read yet.
pub open spec fn parts_start() -> PartsV {
    PartsV { text: Seq::empty(), thinking: None, has_tool_use: false, tool_name: None, preview: None }
}

/// One part of an assistant message: a thought sets the thinking text (in
/// the detailed view only when it has text); otherwise its text is
/// appended, and a function call marks tool use with its name and input
/// preview.
pub open spec fn part_step(st: PartsV, part: JVal, detailed: bool) -> PartsV {
    if bool_of(field(part, "thought"@)) == Some(true) {
        let t = str_of(field(part, "text"@));
        PartsV {
            thinking: if detailed {
                match t {
                    Some(x) => Some(x),
                    None => st.thinking,
                }
            } else {
                t
            },
            ..st
        }
    } else {
        let st1 = match str_of(field(part, "text"@)) {
            Some(t) => PartsV { text: append_line(st.text, t), ..st },
            None => st,
        };
        match field(part, "functionCall"@) {
            Some(fc) => {
                let st2 = PartsV { has_tool_use: true, ..st1 };
                match str_of(field(fc, "name"@)) {
                    Some(n) => {
                        let st3 = PartsV { tool_name: Some(n), ..st2 };
                        match field(fc, "input"@) {
                            Some(inp) => PartsV { preview: Some(input_preview(inp, detailed)), ..st3 },
                            None => st3,
                        }
                    },
                    None => st2,
                }
            },
            None => st1,
        }
    }
}

/// The parts read in order.
pub open spec fn parts_fold(ps: Seq<JVal>, detailed: bool) -> PartsV
    decreases ps.len(),
{
    if ps.len() == 0 {
        parts_start()
    } else {
        part_step(parts_fold(ps.drop_last(), detailed), ps.last(), detailed)
    }
}

/// The text of a user message's parts, one line per text part.
pub open spec fn user_text(ps: Seq<JVal>) -> Seq<char>
    decreases ps.len(),
{
    if ps.len() == 0 {
        Seq::empty()
    } else {
        match str_of(field(ps.last(), "text"@)) {
            Some(t) => append_line(user_text(ps.drop_last()), t),
            None => user_text(ps.drop_last()),
        }
    }
}

/// A message read from one JSONL record.
pub open spec fn message_of(j: JVal, detailed: bool) -> MsgV {
    let t = text_of(j, "type"@);
    let base = MsgV {
        uuid: text_of(j, "uuid"@),
        msg_type: t,
        timestamp: text_of(j, "timestamp"@),
        model: None,
        text: Seq::empty(),
        thinking: None,
        has_tool_use: false,
        tool_name: None,
        tool_input_preview: None,
        input_tokens: 0,
        output_tokens: 0,
    };
    if t == "assistant"@ {
        let ps = match parts_of(j) {
            Some(ps) => parts_fold(ps, detailed),
            None => parts_start(),
        };
        MsgV {
            model: str_of(field(j, "model"@)),
            text: ps.text,
            thinking: ps.thinking,
            has_tool_use: ps.has_tool_use,
            tool_name: ps.tool_name,
            tool_input_preview: ps.preview,
            input_tokens: message_tokens(j).0,
            output_tokens: message_tokens(j).1,
            ..base
        }
    } else if t == "user"@ {
        MsgV {
            text: match parts_of(j) {
                Some(ps) => user_text(ps),
                None => Seq::empty(),
            },
            ..base
        }
    } else if t == "system"@ {
        MsgV { text: text_of(j, "content"@), ..base }
    } else {
        base
    }
}

/// The parts of a message.
fn parts_exec(j: &JsonValue) -> (r: Option<&Vec<JsonValue>>)
    ensures
        match r {
            Some(a) => parts_of(view_json(*j)) == Some(view_elements(a@)),
            None => parts_of(view_json(*j)) is None,
        },
{
    match get_opt(j.get("message"), "parts") {
        Some(p) => p.as_array(),
        None => None,
    }
}

/// Reads the parts of an assistant message.
fn read_parts(ps: &Vec<JsonValue>, detailed: bool) -> (r: (String, Option<String>, bool, Option<String>, Option<String>))
    ensures
        (PartsV { text: r.0@, thinking: ostr(r.1), has_tool_use: r.2, tool_name: ostr(r.3), preview: ostr(r.4) })
            == parts_fold(view_elements(ps@), detailed),
{
    let ghost pv = view_elements(ps@);
    let mut text = String::new();
    let mut thinking: Option<String> = None;
    let mut has_tool_use = false;
    let mut tool_name: Option<String> = None;
    let mut preview: Option<String> = None;
    let mut i: usize = 0;
    while i < ps.len()
        invariant
            i <= ps@.len(),
            pv == view_elements(ps@),
            (PartsV { text: text@, thinking: ostr(thinking), has_tool_use, tool_name: ostr(tool_name), preview: ostr(preview) })
                == parts_fold(pv.take(i as int), detailed),
        decreases ps@.len() - i,
    {
        assert(pv.take(i + 1).drop_last() == pv.take(i as int));
        assert(pv.take(i + 1).last() == pv[i as int]);
        let part = &ps[i];
        let thought = match part.get("thought") {
            Some(x) => x.as_bool(),
            None => None,
        };
        if thought == Some(true) {
            let t = match part.get("text") {
                Some(x) => match x.as_str() {
                    Some(s) => Some(owned(s)),
                    None => None,
                },
                None => None,
            };
            if detailed {
                if t.is_some() {
                    thinking = t;
                }
            } else {
                thinking = t;
            }
        } else {
            if let Some(x) = part.get("text") {
                if let Some(t) = x.as_str() {
                    append_line_exec(&mut text, t);
                }
            }
            if let Some(fc) = part.get("functionCall") {
                has_tool_use = true;
                if let Some(nv) = fc.get("name") {
                    if let Some(n) = nv.as_str() {
                        tool_name = Some(owned(n));
                        if let Some(inp) = fc.get("input") {
                            preview = Some(input_preview_exec(inp, detailed));
                        }
                    }
                }
            }
        }
        i = i + 1;
    }
    assert(pv.take(pv.len() as int) == pv);
    (text, thinking, has_tool_use, tool_name, preview)
}

/// Reads the text of a user message's parts.
fn read_user_text(ps: &Vec<JsonValue>) -> (r: String)
    ensures
        r@ == user_text(view_elements(ps@)),
{
    let ghost pv = view_elements(ps@);
    let mut text = String::new();
    let mut i: usize = 0;
    while i < ps.len()
        invariant
            i <= ps@.len(),
            pv == view_elements(ps@),
            text@ == user_text(pv.take(i as int)),
        decreases ps@.len() - i,
    {
        assert(pv.take(i + 1).drop_last() == pv.take(i as int));
        assert(pv.take(i + 1).last() == pv[i as int]);
        if let Some(x) = ps[i].get("text") {
            if let Some(t) = x.as_str() {
                append_line_exec(&mut text, t);
            }
        }
        i = i + 1;
    }
    assert(pv.take(pv.len() as int) == pv);
    text
}

/// Reads one message from a JSONL record; `detailed` selects the session
/// detail's reading of thoughts and previews.
pub fn read_message(j: &JsonValue, detailed: bool) -> (r: SessionMessage)
    ensures
        r@ == message_of(view_json(*j), detailed),
{
    let msg_type = text_at(j, "type");
    let uuid = text_at(j, "uuid");
    let timestamp = text_at(j, "timestamp");
    let mut m = SessionMessage {
        uuid,
        msg_type: copy_string(&msg_type),
        timestamp,
        model: None,
        text: String::new(),
        thinking: None,
        has_tool_use: false,
        tool_name: None,
        tool_input_preview: None,
        input_tokens: 0,
        output_tokens: 0,
    };
    if str_eq(msg_type.as_str(), "assistant") {
        m.model = match j.get("model") {
            Some(x) => match x.as_str() {
                Some(t) => Some(owned(t)),
                None => None,
            },
            None => None,
        };
        let (i, o) = message_tokens_exec(j);
        m.input_tokens = i;
        m.output_tokens = o;
        match parts_exec(j) {
            Some(ps) => {
                let (text, thinking, has_tool_use, tool_name, preview) = read_parts(ps, detailed);
                m.text = text;
                m.thinking = thinking;
                m.has_tool_use = has_tool_use;
                m.tool_name = tool_name;
                m.tool_input_preview = preview;
            },
            None => {},
        }
    } else if str_eq(msg_type.as_str(), "user") {
        if let Some(ps) = parts_exec(j) {
            m.text = read_user_text(ps);
        }
    } else if str_eq(msg_type.as_str(), "system") {
        m.text = text_at(j, "content");
    }
    m
}

/// Reads one message of a session (the reading used for paged loading).
pub fn parse_message(j: &JsonValue) -> (r: Option<SessionMessage>)
    ensures
        r matches Some(m) && m@ == message_of(view_json(*j), false),
{
    Some(read_message(j, false))
}


/// The records of a JSONL text: each line that reads as JSON, in order.
pub open spec fn records_of(lines: Seq<Seq<char>>) -> Seq<JVal>
    decreases lines.len(),
{
    if lines.len() == 0 {
        Seq::empty()
    } else {
        match parsed_json(lines.last()) {
            Some(j) => records_of(lines.drop_last()).push(j),
            None => records_of(lines.drop_last()),
        }
    }
}

/// Reads the records of JSONL lines, skipping lines that are not JSON.
pub fn read_records(lines: &Vec<String>) -> (r: Vec<JsonValue>)
    ensures
        view_elements(r@) == records_of(views(lines@)),
{
    let ghost lv = views(lines@);
    let mut out: Vec<JsonValue> = Vec::new();
    assert(view_elements(out@) =~= Seq::empty());
    let mut i: usize = 0;
    while i < lines.len()
        invariant
            i <= lines@.len(),
            lv == views(lines@),
            view_elements(out@) == records_of(lv.take(i as int)),
        decreases lines@.len() - i,
    {
        assert(lv.take(i + 1).drop_last() == lv.take(i as int));
        assert(lv.take(i + 1).last() == lines@[i as int]@);
        match parse_json(lines[i].as_str()) {
            Some(j) => {
                let ghost o = view_elements(out@);
                out.push(j);
                assert(view_elements(out@) =~= o.push(view_json(j)));
            },
            None => {},
        }
        i = i + 1;
    }
    assert(lv.take(lv.len() as int) == lv);
    out
}

/// Name for what chrono computes from two timestamps in a format: the
/// milliseconds from the first to the last (`NaiveDateTime` difference), or
/// nothing when either does not parse.
pub uninterp spec fn timestamp_delta_ms(first: Seq<char>, last: Seq<char>, fmt: Seq<char>) -> Option<i64>;

/// Parses two timestamps with `NaiveDateTime::parse_from_str` and takes
/// the milliseconds of their difference; depends on the texts alone.
#[verifier::external_body]
fn naive_delta_ms(first: &str, last: &str, fmt: &str) -> (r: Option<i64>)
    ensures
        r == timestamp_delta_ms(first@, last@, fmt@),
{
    let end = chrono::NaiveDateTime::parse_from_str(last, fmt).ok()?;
    let start = chrono::NaiveDateTime::parse_from_str(first, fmt).ok()?;
    Some((end - start).num_milliseconds())
}

/// The timestamp format of session records.
pub open spec fn ts_format() -> Seq<char> {
    "%Y-%m-%dT%H:%M:%S%.fZ"@
}

/// The milliseconds a session spans: from its first to its last timestamp,
/// never below zero, and zero when either is missing or does not parse.
pub open spec fn span_ms(first: Seq<char>, last: Seq<char>) -> i64 {
    if first.len() == 0 || last.len() == 0 {
        0
    } else {
        match timestamp_delta_ms(first, last, ts_format()) {
            Some(d) => if d > 0 {
                d
            } else {
                0
            },
            None => 0,
        }
    }
}

/// Computes the milliseconds a session spans.
pub fn session_span_ms(first: &str, last: &str) -> (r: i64)
    ensures
        r == span_ms(first@, last@),
{
    if first.is_empty() || last.is_empty() {
        return 0;
    }
    match naive_delta_ms(first, last, "%Y-%m-%dT%H:%M:%S%.fZ") {
        Some(d) => if d > 0 {
            d
        } else {
            0
        },
        None => 0,
    }
}

/// The duration text of a session: `<h>h <m>m` from an hour on, `<m>m`
/// below, and empty when a timestamp is missing.
pub open spec fn duration_text(first: Seq<char>, last: Seq<char>) -> Seq<char> {
    if first.len() == 0 || last.len() == 0 {
        Seq::empty()
    } else {
        let mins = (span_ms(first, last) / 60000) as nat;
        if mins >= 60 {
            dec_text(mins / 60) + "h "@ + dec_text(mins % 60) + "m"@
        } else {
            dec_text(mins) + "m"@
        }
    }
}

/// Writes the duration text of a session.
pub fn session_duration(first: &str, last: &str) -> (r: String)
    ensures
        r@ == duration_text(first@, last@),
{
    if first.is_empty() || last.is_empty() {
        return String::new();
    }
    let ms = session_span_ms(first, last);
    let mins: u64 = (ms / 60000) as u64;
    if mins >= 60 {
        let mut r = u64_text(mins / 60);
        r.push_str("h ");
        r.push_str(u64_text(mins % 60).as_str());
        r.push_str("m");
        r
    } else {
        let mut r = u64_text(mins);
        r.push_str("m");
        r
    }
}

/// The date of a timestamp: its first ten bytes when they end on a
/// character boundary, else empty.
pub open spec fn date_of(ts: Seq<char>) -> Seq<char> {
    let b = encode_utf8(ts);
    if (b.len() as usize) >= 10 && is_char_boundary(b, 10) {
        decode_utf8(b.subrange(0, 10))
    } else {
        Seq::empty()
    }
}

/// The date part of a timestamp.
pub fn date_part(ts: &str) -> (r: String)
    ensures
        r@ == date_of(ts@),
{
    if ts.len() >= 10 && ts.is_char_boundary(10) {
        let (a, _) = ts.split_at(10);
        proof {
            vstd::utf8::encode_utf8_decode_utf8(a@);
            assert(a.spec_bytes() == encode_utf8(a@));
            assert(ts.spec_bytes() == encode_utf8(ts@));
            assert(a.spec_bytes() =~= encode_utf8(ts@).subrange(0, 10));
            assert(a@ == decode_utf8(encode_utf8(ts@).subrange(0, 10)));
        }
        owned(a)
    } else {
        proof {
            assert(ts.spec_bytes() == encode_utf8(ts@));
        }
        String::new()
    }
}

/// The counts of tool, skill and agent calls.
pub type CallTallies = (Seq<(Seq<char>, usize)>, Seq<(Seq<char>, usize)>, Seq<(Seq<char>, usize)>);

/// One function call counted: a `skill` call by its skill (when named), an
/// `agent` call by its subagent type (`general-purpose` by default), any
/// other call by its name.
pub open spec fn count_call(t: CallTallies, fc: JVal, name: Seq<char>) -> CallTallies {
    if name == "skill"@ {
        match str_of(field_of(field(fc, "args"@), "skill"@)) {
            Some(sk) => (t.0, tally_add(t.1, sk), t.2),
            None => t,
        }
    } else if name == "agent"@ {
        let a = match str_of(field_of(field(fc, "args"@), "subagent_type"@)) {
            Some(x) => x,
            None => "general-purpose"@,
        };
        (t.0, t.1, tally_add(t.2, a))
    } else {
        (tally_add(t.0, name), t.1, t.2)
    }
}

/// The calls a part adds: that of its function call with a name; thought
/// parts count only when `with_thoughts`.
pub open spec fn part_calls(t: CallTallies, part: JVal, with_thoughts: bool) -> CallTallies {
    if !with_thoughts && bool_of(field(part, "thought"@)) == Some(true) {
        t
    } else {
        match field(part, "functionCall"@) {
            Some(fc) => match str_of(field(fc, "name"@)) {
                Some(n) => count_call(t, fc, n),
                None => t,
            },
            None => t,
        }
    }
}

/// The calls of the parts, in order.
pub open spec fn parts_calls(t: CallTallies, ps: Seq<JVal>, with_thoughts: bool) -> CallTallies
    decreases ps.len(),
{
    if ps.len() == 0 {
        t
    } else {
        part_calls(parts_calls(t, ps.drop_last(), with_thoughts), ps.last(), with_thoughts)
    }
}

/// The view of three tallies.
pub open spec fn tallies_view(a: Seq<ToolCallStat>, b: Seq<ToolCallStat>, c: Seq<ToolCallStat>) -> CallTallies {
    (stats_view(a), stats_view(b), stats_view(c))
}

/// Counts the calls of a message's parts.
fn count_parts_calls(
    ps: &Vec<JsonValue>,
    with_thoughts: bool,
    tools: &mut Vec<ToolCallStat>,
    skills: &mut Vec<ToolCallStat>,
    agents: &mut Vec<ToolCallStat>,
)
    ensures
        tallies_view(final(tools)@, final(skills)@, final(agents)@) == parts_calls(
            tallies_view(old(tools)@, old(skills)@, old(agents)@),
            view_elements(ps@),
            with_thoughts,
        ),
{
    let ghost pv = view_elements(ps@);
    let ghost t0 = tallies_view(tools@, skills@, agents@);
    let mut i: usize = 0;
    while i < ps.len()
        invariant
            i <= ps@.len(),
            pv == view_elements(ps@),
            tallies_view(tools@, skills@, agents@) == parts_calls(t0, pv.take(i as int), with_thoughts),
        decreases ps@.len() - i,
    {
        assert(pv.take(i + 1).drop_last() == pv.take(i as int));
        assert(pv.take(i + 1).last() == pv[i as int]);
        let part = &ps[i];
        let thought = match part.get("thought") {
            Some(x) => x.as_bool(),
            None => None,
        };
        if with_thoughts || thought != Some(true) {
            if let Some(fc) = part.get("functionCall") {
                if let Some(nv) = fc.get("name") {
                    if let Some(n) = nv.as_str() {
                        if str_eq(n, "skill") {
                            if let Some(sk) = crate::json::get_opt(fc.get("args"), "skill") {
                                if let Some(skn) = sk.as_str() {
                                    tally(skills, skn);
                                }
                            }
                        } else if str_eq(n, "agent") {
                            let a = match crate::json::get_opt(fc.get("args"), "subagent_type") {
                                Some(x) => match x.as_str() {
                                    Some(t) => owned(t),
                                    None => owned("general-purpose"),
                                },
                                None => owned("general-purpose"),
                            };
                            tally(agents, a.as_str());
                        } else {
                            tally(tools, n);
                        }
                    }
                }
            }
        }
        i = i + 1;
    }
    assert(pv.take(pv.len() as int) == pv);
}

/// A sum that stops at the largest `u64`.
pub open spec fn sat_add(a: u64, b: u64) -> u64 {
    if a + b <= u64::MAX {
        (a + b) as u64
    } else {
        u64::MAX
    }
}

/// The session detail accumulated over records.
pub ghost struct DetailAcc {
    pub msgs: Seq<MsgV>,
    pub models: Seq<Seq<char>>,
    pub input: u64,
    pub output: u64,
    pub calls: CallTallies,
    pub first: Seq<char>,
    pub last: Seq<char>,
}

/// The detail before any record.
pub open spec fn detail_start() -> DetailAcc {
    DetailAcc {
        msgs: Seq::empty(),
        models: Seq::empty(),
        input: 0,
        output: 0,
        calls: (Seq::empty(), Seq::empty(), Seq::empty()),
        first: Seq::empty(),
        last: Seq::empty(),
    }
}

/// One record of a session detail: its message, its model and tokens when
/// it is an assistant message, its calls, and the first and last
/// non-empty timestamps.
pub open spec fn detail_step(acc: DetailAcc, j: JVal) -> DetailAcc {
    let m = message_of(j, true);
    let ts = m.timestamp;
    let is_assistant = m.msg_type == "assistant"@;
    DetailAcc {
        msgs: acc.msgs.push(m),
        models: if is_assistant {
            match m.model {
                Some(md) => sorted_insert(acc.models, md),
                None => acc.models,
            }
        } else {
            acc.models
        },
        input: if is_assistant {
            sat_add(acc.input, m.input_tokens)
        } else {
            acc.input
        },
        output: if is_assistant {
            sat_add(acc.output, m.output_tokens)
        } else {
            acc.output
        },
        calls: if is_assistant {
            match parts_of(j) {
                Some(ps) => parts_calls(acc.calls, ps, false),
                None => acc.calls,
            }
        } else {
            acc.calls
        },
        first: if acc.first.len() == 0 {
            ts
        } else {
            acc.first
        },
        last: if ts.len() > 0 {
            ts
        } else {
            acc.last
        },
    }
}

/// The detail accumulated over records in order.
pub open spec fn detail_fold(rs: Seq<JVal>) -> DetailAcc
    decreases rs.len(),
{
    if rs.len() == 0 {
        detail_start()
    } else {
        detail_step(detail_fold(rs.drop_last()), rs.last())
    }
}

/// The details of one session, as the session browser shows it.
pub struct SessionDetail {
    pub message_count: usize,
    pub models: String,
    pub input_tokens: u64,
    pub output_tokens: u64,
    pub duration: String,
    pub tool_calls: Vec<ToolCallStat>,
    pub skill_calls: Vec<ToolCallStat>,
    pub agent_calls: Vec<ToolCallStat>,
    pub messages: Vec<SessionMessage>,
}

/// Reads the details of a session from its JSONL lines: every record as a
/// message, the models of assistant messages (distinct, ascending, joined
/// by `, `), their token sums (which stop at the largest `u64`), the
/// duration, and the tool, skill and agent calls (highest count first).
pub fn get_session_detail(lines: &Vec<String>) -> (r: SessionDetail)
    ensures
        ({
            let acc = detail_fold(records_of(views(lines@)));
            &&& msgs_view(r.messages@) == acc.msgs
            &&& r.message_count == acc.msgs.len()
            &&& r.models@ == join_with(acc.models, ", "@)
            &&& r.input_tokens == acc.input
            &&& r.output_tokens == acc.output
            &&& r.duration@ == duration_text(acc.first, acc.last)
            &&& stats_view(r.tool_calls@) == crate::tally::sort_by_count_desc(acc.calls.0)
            &&& stats_view(r.skill_calls@) == crate::tally::sort_by_count_desc(acc.calls.1)
            &&& stats_view(r.agent_calls@) == crate::tally::sort_by_count_desc(acc.calls.2)
        }),
{
    let records = read_records(lines);
    let ghost rv = view_elements(records@);
    let mut messages: Vec<SessionMessage> = Vec::new();
    let mut models: Vec<String> = Vec::new();
    let mut input: u64 = 0;
    let mut output: u64 = 0;
    let mut tools: Vec<ToolCallStat> = Vec::new();
    let mut skills: Vec<ToolCallStat> = Vec::new();
    let mut agents: Vec<ToolCallStat> = Vec::new();
    let mut first = String::new();
    let mut last = String::new();
    assert(msgs_view(messages@) =~= Seq::empty());
    assert(views(models@) =~= Seq::empty());
    assert(stats_view(tools@) =~= Seq::empty());
    assert(stats_view(skills@) =~= Seq::empty());
    assert(stats_view(agents@) =~= Seq::empty());
    let mut i: usize = 0;
    while i < records.len()
        invariant
            i <= records@.len(),
            rv == view_elements(records@),
            ({
                let acc = detail_fold(rv.take(i as int));
                &&& msgs_view(messages@) == acc.msgs
                &&& views(models@) == acc.models
                &&& input == acc.input
                &&& output == acc.output
                &&& tallies_view(tools@, skills@, agents@) == acc.calls
                &&& first@ == acc.first
                &&& last@ == acc.last
            }),
            crate::order::strictly_sorted(views(models@)),
        decreases records@.len() - i,
    {
        assert(rv.take(i + 1).drop_last() == rv.take(i as int));
        assert(rv.take(i + 1).last() == rv[i as int]);
        let j = &records[i];
        let m = read_message(j, true);
        if str_eq(m.msg_type.as_str(), "assistant") {
            if let Some(md) = &m.model {
                insert_sorted(&mut models, copy_string(md));
            }
            input = if input as u128 + m.input_tokens as u128 <= u64::MAX as u128 {
                input + m.input_tokens
            } else {
                u64::MAX
            };
            output = if output as u128 + m.output_tokens as u128 <= u64::MAX as u128 {
                output + m.output_tokens
            } else {
                u64::MAX
            };
            if let Some(ps) = parts_exec(j) {
                count_parts_calls(ps, false, &mut tools, &mut skills, &mut agents);
            }
        }
        if first.as_str().is_empty() {
            first = copy_string(&m.timestamp);
        }
        if !m.timestamp.as_str().is_empty() {
            last = copy_string(&m.timestamp);
        }
        let ghost mv = msgs_view(messages@);
        messages.push(m);
        assert(msgs_view(messages@) =~= mv.push(m@));
        i = i + 1;
    }
    assert(rv.take(rv.len() as int) == rv);
    let duration = session_duration(first.as_str(), last.as_str());
    let model_text = join_strings(&models, ", ");
    SessionDetail {
        message_count: messages.len(),
        models: model_text,
        input_tokens: input,
        output_tokens: output,
        duration,
        tool_calls: crate::tally::sort_stats_desc(tools),
        skill_calls: crate::tally::sort_stats_desc(skills),
        agent_calls: crate::tally::sort_stats_desc(agents),
        messages,
    }
}


/// Token and message sums of one model on one day.
pub struct ModelEntry {
    pub model: String,
    pub date: String,
    pub input_tokens: u64,
    pub output_tokens: u64,
    pub cache_read: u64,
    pub msg_count: usize,
}

/// Mathematical view of a [`ModelEntry`].
pub open spec fn entry_view(e: ModelEntry) -> (Seq<char>, Seq<char>, u64, u64, u64, usize) {
    (e.model@, e.date@, e.input_tokens, e.output_tokens, e.cache_read, e.msg_count)
}

/// Views of model entries.
pub open spec fn entries_view(s: Seq<ModelEntry>) -> Seq<(Seq<char>, Seq<char>, u64, u64, u64, usize)> {
    Seq::new(s.len(), |i: int| entry_view(s[i]))
}

/// Position of the entry for a model and day.
pub open spec fn daily_index(t: Seq<(Seq<char>, Seq<char>, u64, u64, u64, usize)>, model: Seq<char>, date: Seq<char>) -> Option<int>
    decreases t.len(),
{
    if t.len() == 0 {
        None
    } else if t.last().0 == model && t.last().1 == date {
        Some(t.len() - 1)
    } else {
        daily_index(t.drop_last(), model, date)
    }
}

/// The day sums after one more assistant message of a model.
pub open spec fn daily_add(
    t: Seq<(Seq<char>, Seq<char>, u64, u64, u64, usize)>,
    model: Seq<char>,
    date: Seq<char>,
    i: u64,
    o: u64,
    c: u64,
) -> Seq<(Seq<char>, Seq<char>, u64, u64, u64, usize)> {
    match daily_index(t, model, date) {
        Some(k) => t.update(
            k,
            (model, date, sat_add(t[k].2, i), sat_add(t[k].3, o), sat_add(t[k].4, c), crate::tally::inc(t[k].5)),
        ),
        None => t.push((model, date, i, o, c, 1usize)),
    }
}

proof fn lemma_daily_index(t: Seq<(Seq<char>, Seq<char>, u64, u64, u64, usize)>, model: Seq<char>, date: Seq<char>)
    ensures
        match daily_index(t, model, date) {
            Some(k) => 0 <= k < t.len() && t[k].0 == model && t[k].1 == date && forall|j: int|
                k < j < t.len() ==> !(t[j].0 == model && t[j].1 == date),
            None => forall|j: int| 0 <= j < t.len() ==> !(t[j].0 == model && t[j].1 == date),
        },
    decreases t.len(),
{
    if t.len() > 0 && !(t.last().0 == model && t.last().1 == date) {
        lemma_daily_index(t.drop_last(), model, date);
        match daily_index(t.drop_last(), model, date) {
            Some(k) => {
                assert forall|j: int| k < j < t.len() implies !(t[j].0 == model && t[j].1 == date) by {
                    if j < t.len() - 1 {
                        assert(t[j] == t.drop_last()[j]);
                    }
                }
            },
            None => {
                assert forall|j: int| 0 <= j < t.len() implies !(t[j].0 == model && t[j].1 == date) by {
                    if j < t.len() - 1 {
                        assert(t[j] == t.drop_last()[j]);
                    }
                }
            },
        }
    }
}

/// A saturating sum.
fn sat_add_exec(a: u64, b: u64) -> (r: u64)
    ensures
        r == sat_add(a, b),
{
    if a as u128 + b as u128 <= u64::MAX as u128 {
        a + b
    } else {
        u64::MAX
    }
}

/// Adds one assistant message to the day sums.
fn daily_add_exec(t: &mut Vec<ModelEntry>, model: &String, date: &String, i: u64, o: u64, c: u64)
    ensures
        entries_view(final(t)@) == daily_add(entries_view(old(t)@), model@, date@, i, o, c),
{
    let ghost tv = entries_view(t@);
    proof {
        lemma_daily_index(tv, model@, date@);
    }
    let mut k = t.len();
    while k > 0
        invariant
            k <= t@.len(),
            tv == entries_view(t@),
            t@ == old(t)@,
            forall|j: int| k <= j < t@.len() ==> !(tv[j].0 == model@ && tv[j].1 == date@),
        decreases k,
    {
        if str_eq(t[k - 1].model.as_str(), model.as_str()) && str_eq(t[k - 1].date.as_str(), date.as_str()) {
            proof {
                lemma_daily_index(tv, model@, date@);
                assert(tv[k - 1] == entry_view(t@[k - 1]));
                match daily_index(tv, model@, date@) {
                    Some(q) => {
                        if q < k - 1 {
                            assert(tv[k - 1].0 == model@ && tv[k - 1].1 == date@);
                        } else if q > k - 1 {
                            assert(!(tv[q].0 == model@ && tv[q].1 == date@));
                        }
                    },
                    None => {
                        assert(!(tv[k - 1].0 == model@ && tv[k - 1].1 == date@));
                    },
                }
                assert(daily_index(tv, model@, date@) == Some((k - 1) as int));
            }
            let e = t.remove(k - 1);
            let cnt = if e.msg_count < usize::MAX {
                e.msg_count + 1
            } else {
                e.msg_count
            };
            let ne = ModelEntry {
                model: e.model,
                date: e.date,
                input_tokens: sat_add_exec(e.input_tokens, i),
                output_tokens: sat_add_exec(e.output_tokens, o),
                cache_read: sat_add_exec(e.cache_read, c),
                msg_count: cnt,
            };
            t.insert(k - 1, ne);
            assert(entries_view(t@) =~= daily_add(tv, model@, date@, i, o, c));
            return;
        }
        k = k - 1;
    }
    proof {
        if let Some(q) = daily_index(tv, model@, date@) {
            assert(!(tv[q].0 == model@ && tv[q].1 == date@));
        }
    }
    t.push(ModelEntry { model: copy_string(model), date: copy_string(date), input_tokens: i, output_tokens: o, cache_read: c, msg_count: 1 });
    assert(entries_view(t@) =~= tv.push((model@, date@, i, o, c, 1usize)));
}

/// The session statistics accumulated over records.
pub ghost struct StatsAcc {
    pub messages: usize,
    pub users: usize,
    pub assistants: usize,
    pub input: u64,
    pub output: u64,
    pub cache_read: u64,
    pub models: Seq<Seq<char>>,
    pub calls: CallTallies,
    pub first: Seq<char>,
    pub last: Seq<char>,
    pub daily: Seq<(Seq<char>, Seq<char>, u64, u64, u64, usize)>,
}

/// The statistics before any record.
pub open spec fn stats_start() -> StatsAcc {
    StatsAcc {
        messages: 0,
        users: 0,
        assistants: 0,
        input: 0,
        output: 0,
        cache_read: 0,
        models: Seq::empty(),
        calls: (Seq::empty(), Seq::empty(), Seq::empty()),
        first: Seq::empty(),
        last: Seq::empty(),
        daily: Seq::empty(),
    }
}

/// The cached tokens of an assistant message, zero where absent.
pub open spec fn cached_tokens(j: JVal) -> u64 {
    match field(j, "usageMetadata"@) {
        Some(u) => or_zero(u64_of(field(u, "cachedContentTokenCount"@))),
        None => 0,
    }
}

/// One record of the statistics: counted by type; an assistant message adds
/// its model (`unknown` when absent), tokens, day sums (when its timestamp
/// has a date) and calls; the first and last non-empty timestamps are
/// kept.
pub open spec fn stats_step(acc: StatsAcc, j: JVal) -> StatsAcc {
    let t = text_of(j, "type"@);
    let ts = text_of(j, "timestamp"@);
    let base = StatsAcc {
        messages: (acc.messages + 1) as usize,
        first: if acc.first.len() == 0 {
            ts
        } else {
            acc.first
        },
        last: if ts.len() > 0 {
            ts
        } else {
            acc.last
        },
        ..acc
    };
    if t == "user"@ {
        StatsAcc { users: (acc.users + 1) as usize, ..base }
    } else if t == "assistant"@ {
        let model = match str_of(field(j, "model"@)) {
            Some(m) => m,
            None => "unknown"@,
        };
        let (i, o) = message_tokens(j);
        let c = cached_tokens(j);
        let date = date_of(ts);
        StatsAcc {
            assistants: (acc.assistants + 1) as usize,
            models: sorted_insert(acc.models, model),
            input: sat_add(acc.input, i),
            output: sat_add(acc.output, o),
            cache_read: sat_add(acc.cache_read, c),
            daily: if date.len() > 0 {
                daily_add(acc.daily, model, date, i, o, c)
            } else {
                acc.daily
            },
            calls: match parts_of(j) {
                Some(ps) => parts_calls(acc.calls, ps, true),
                None => acc.calls,
            },
            ..base
        }
    } else {
        base
    }
}

/// The statistics accumulated over records in order.
pub open spec fn stats_fold(rs: Seq<JVal>) -> StatsAcc
    decreases rs.len(),
{
    if rs.len() == 0 {
        stats_start()
    } else {
        stats_step(stats_fold(rs.drop_last()), rs.last())
    }
}

/// The statistics of one session file.
pub struct ParsedStats {
    pub message_count: usize,
    pub user_messages: usize,
    pub assistant_msgs: usize,
    pub input_tokens: u64,
    pub output_tokens: u64,
    pub cache_read_tokens: u64,
    pub models: String,
    pub tool_calls_json: String,
    pub skill_calls_json: String,
    pub agent_calls_json: String,
    pub started_at: String,
    pub ended_at: String,
    pub duration_ms: i64,
    pub model_entries: Vec<ModelEntry>,
}

/// The statistics of an empty or unreadable session.
pub fn empty_stats() -> (r: ParsedStats)
    ensures
        r.message_count == 0 && r.user_messages == 0 && r.assistant_msgs == 0,
        r.input_tokens == 0 && r.output_tokens == 0 && r.cache_read_tokens == 0,
        r.models@ == Seq::<char>::empty(),
        r.tool_calls_json@ == "[]"@ && r.skill_calls_json@ == "[]"@ && r.agent_calls_json@ == "[]"@,
        r.started_at@ == Seq::<char>::empty() && r.ended_at@ == Seq::<char>::empty(),
        r.duration_ms == 0,
        r.model_entries@.len() == 0,
{
    ParsedStats {
        message_count: 0,
        user_messages: 0,
        assistant_msgs: 0,
        input_tokens: 0,
        output_tokens: 0,
        cache_read_tokens: 0,
        models: String::new(),
        tool_calls_json: owned("[]"),
        skill_calls_json: owned("[]"),
        agent_calls_json: owned("[]"),
        started_at: String::new(),
        ended_at: String::new(),
        duration_ms: 0,
        model_entries: Vec::new(),
    }
}

/// The JSON list `[{"name", "count"}, ...]` of name counts, in order.
pub open spec fn counts_json(t: Seq<(Seq<char>, usize)>) -> JVal {
    JVal::Array(
        Seq::new(
            t.len(),
            |i: int|
                JVal::Object(
                    seq![
                        ("name"@, JVal::Str(t[i].0)),
                        ("count"@, JVal::Number(crate::json::JNum::PosInt(t[i].1 as u64))),
                    ],
                ),
        ),
    )
}

/// Writes name counts as a JSON list.
fn counts_json_text(t: &Vec<ToolCallStat>) -> (r: String)
    ensures
        r@ == json_text(counts_json(stats_view(t@))),
{
    let mut out: Vec<JsonValue> = Vec::new();
    let mut i: usize = 0;
    while i < t.len()
        invariant
            i <= t@.len(),
            out@.len() == i,
            forall|k: int| 0 <= k < i ==> view_json(#[trigger] out@[k]) == JVal::Object(
                seq![
                    ("name"@, JVal::Str(t@[k].name@)),
                    ("count"@, JVal::Number(crate::json::JNum::PosInt(t@[k].count as u64))),
                ],
            ),
        decreases t@.len() - i,
    {
        let m = vec![
            (owned("name"), JsonValue::Str(copy_string(&t[i].name))),
            (owned("count"), JsonValue::Number(crate::json::JsonNumber::PosInt(t[i].count as u64))),
        ];
        proof {
            lemma_view_object(m);
            assert(view_members(m@) =~= seq![
                ("name"@, JVal::Str(t@[i as int].name@)),
                ("count"@, JVal::Number(crate::json::JNum::PosInt(t@[i as int].count as u64))),
            ]);
        }
        out.push(JsonValue::Object(m));
        i = i + 1;
    }
    proof {
        lemma_view_array(out);
        assert(view_elements(out@) =~= match counts_json(stats_view(t@)) {
            JVal::Array(a) => a,
            _ => Seq::empty(),
        });
    }
    write_json(&JsonValue::Array(out))
}

/// Reads the statistics of a session from its JSONL lines: message counts
/// by type, token sums of assistant messages (which stop at the largest
/// `u64`), their models (distinct, ascending, joined by `, `), the tool,
/// skill and agent calls as JSON lists, the first and last timestamps, the
/// span in milliseconds, and sums per model and day.
pub fn parse_session_stats(lines: &Vec<String>) -> (r: ParsedStats)
    ensures
        ({
            let acc = stats_fold(records_of(views(lines@)));
            &&& r.message_count == acc.messages
            &&& r.user_messages == acc.users
            &&& r.assistant_msgs == acc.assistants
            &&& r.input_tokens == acc.input
            &&& r.output_tokens == acc.output
            &&& r.cache_read_tokens == acc.cache_read
            &&& r.models@ == join_with(acc.models, ", "@)
            &&& r.tool_calls_json@ == json_text(counts_json(acc.calls.0))
            &&& r.skill_calls_json@ == json_text(counts_json(acc.calls.1))
            &&& r.agent_calls_json@ == json_text(counts_json(acc.calls.2))
            &&& r.started_at@ == acc.first
            &&& r.ended_at@ == acc.last
            &&& r.duration_ms == span_ms(acc.first, acc.last)
            &&& entries_view(r.model_entries@) == acc.daily
        }),
{
    let records = read_records(lines);
    let ghost rv = view_elements(records@);
    let mut messages: usize = 0;
    let mut users: usize = 0;
    let mut assistants: usize = 0;
    let mut input: u64 = 0;
    let mut output: u64 = 0;
    let mut cache: u64 = 0;
    let mut models: Vec<String> = Vec::new();
    let mut tools: Vec<ToolCallStat> = Vec::new();
    let mut skills: Vec<ToolCallStat> = Vec::new();
    let mut agents: Vec<ToolCallStat> = Vec::new();
    let mut first = String::new();
    let mut last = String::new();
    let mut daily: Vec<ModelEntry> = Vec::new();
    assert(views(models@) =~= Seq::empty());
    assert(stats_view(tools@) =~= Seq::empty());
    assert(stats_view(skills@) =~= Seq::empty());
    assert(stats_view(agents@) =~= Seq::empty());
    assert(entries_view(daily@) =~= Seq::empty());
    let mut i: usize = 0;
    while i < records.len()
        invariant
            i <= records@.len(),
            rv == view_elements(records@),
            ({
                let acc = stats_fold(rv.take(i as int));
                &&& messages == acc.messages
                &&& users == acc.users
                &&& assistants == acc.assistants
                &&& input == acc.input
                &&& output == acc.output
                &&& cache == acc.cache_read
                &&& views(models@) == acc.models
                &&& tallies_view(tools@, skills@, agents@) == acc.calls
                &&& first@ == acc.first
                &&& last@ == acc.last
                &&& entries_view(daily@) == acc.daily
            }),
            crate::order::strictly_sorted(views(models@)),
            messages == i,
            users + assistants <= i,
        decreases records@.len() - i,
    {
        assert(rv.take(i + 1).drop_last() == rv.take(i as int));
        assert(rv.take(i + 1).last() == rv[i as int]);
        let j = &records[i];
        messages = messages + 1;
        let t = text_at(j, "type");
        let ts = text_at(j, "timestamp");
        if first.as_str().is_empty() {
            first = copy_string(&ts);
        }
        if !ts.as_str().is_empty() {
            last = copy_string(&ts);
        }
        if str_eq(t.as_str(), "user") {
            users = users + 1;
        } else if str_eq(t.as_str(), "assistant") {
            assistants = assistants + 1;
            let model = match j.get("model") {
                Some(x) => match x.as_str() {
                    Some(m) => owned(m),
                    None => owned("unknown"),
                },
                None => owned("unknown"),
            };
            insert_sorted(&mut models, copy_string(&model));
            let (mi, mo) = message_tokens_exec(j);
            let mc = match crate::json::field_u64(j.get("usageMetadata"), "cachedContentTokenCount") {
                Some(v) => v,
                None => 0,
            };
            input = sat_add_exec(input, mi);
            output = sat_add_exec(output, mo);
            cache = sat_add_exec(cache, mc);
            let date = date_part(ts.as_str());
            if !date.as_str().is_empty() {
                daily_add_exec(&mut daily, &model, &date, mi, mo, mc);
            }
            if let Some(ps) = parts_exec(j) {
                count_parts_calls(ps, true, &mut tools, &mut skills, &mut agents);
            }
        }
        i = i + 1;
    }
    assert(rv.take(rv.len() as int) == rv);
    let duration_ms = session_span_ms(first.as_str(), last.as_str());
    ParsedStats {
        message_count: messages,
        user_messages: users,
        assistant_msgs: assistants,
        input_tokens: input,
        output_tokens: output,
        cache_read_tokens: cache,
        models: join_strings(&models, ", "),
        tool_calls_json: counts_json_text(&tools),
        skill_calls_json: counts_json_text(&skills),
        agent_calls_json: counts_json_text(&agents),
        started_at: first,
        ended_at: last,
        duration_ms,
        model_entries: daily,
    }
}


/// The records of a whole JSONL text.
pub fn read_session(content: &str) -> (r: Vec<JsonValue>)
    ensures
        view_elements(r@) == records_of(crate::text::lines_of(content@)),
{
    let lines = crate::text::split_lines(content);
    read_records(&lines)
}

/// A page of a session's messages, counted from the newest.
pub struct PagedMessages {
    pub messages: Vec<SessionMessage>,
    pub total_count: usize,
    pub has_older: bool,
    pub has_newer: bool,
}

/// `a - b`, or zero.
pub open spec fn sat_sub(a: int, b: int) -> int {
    if a > b {
        a - b
    } else {
        0
    }
}

/// The window of a page over `total` messages: skipping the `offset`
/// newest, at most `limit` before them.
pub open spec fn page_window(total: int, offset: int, limit: int) -> (int, int) {
    (sat_sub(total, offset + limit), sat_sub(total, offset))
}

/// The messages read for paging.
pub open spec fn paged_messages(lines: Seq<Seq<char>>) -> Seq<MsgV> {
    let rs = records_of(lines);
    Seq::new(rs.len(), |i: int| message_of(rs[i], false))
}

/// Loads one page of a session's messages from its JSONL lines, newest
/// pages first: the `limit` messages before the `offset` newest ones, in
/// file order, with the total and whether older or newer messages remain.
pub fn get_session_messages_paged(lines: &Vec<String>, offset: usize, limit: usize) -> (r: PagedMessages)
    requires
        offset + limit <= usize::MAX,
    ensures
        ({
            let all = paged_messages(views(lines@));
            let (lo, hi) = page_window(all.len() as int, offset as int, limit as int);
            &&& r.total_count == all.len()
            &&& msgs_view(r.messages@) == all.subrange(lo, hi)
            &&& r.has_older == (lo > 0)
            &&& r.has_newer == (offset > 0)
        }),
{
    let records = read_records(lines);
    let ghost rv = view_elements(records@);
    let ghost allv = paged_messages(views(lines@));
    assert(allv.len() == rv.len());
    let total = records.len();
    let rev_offset = total.saturating_sub(offset + limit);
    let rev_end = total.saturating_sub(offset);
    let mut page: Vec<SessionMessage> = Vec::new();
    let mut q = rev_offset;
    assert(msgs_view(page@) =~= allv.subrange(rev_offset as int, rev_offset as int));
    while q < rev_end
        invariant
            rev_offset <= q <= rev_end <= total,
            total == records@.len(),
            rv == view_elements(records@),
            allv == paged_messages(views(lines@)),
            rv == records_of(views(lines@)),
            msgs_view(page@) == allv.subrange(rev_offset as int, q as int),
        decreases rev_end - q,
    {
        let ghost pv = msgs_view(page@);
        let m = read_message(&records[q], false);
        assert(rv[q as int] == view_json(records@[q as int]));
        assert(allv[q as int] == m@);
        page.push(m);
        assert(msgs_view(page@) =~= pv.push(m@));
        assert(msgs_view(page@) =~= allv.subrange(rev_offset as int, q + 1));
        q = q + 1;
    }
    PagedMessages { messages: page, total_count: total, has_older: rev_offset > 0, has_newer: offset > 0 }
}

/// Two consecutive pages together form the window of twice the size: a
/// page and the one after it (older) tile the messages without gap or
/// overlap.
pub proof fn lemma_pages_tile(total: int, offset: int, limit: int)
    requires
        total >= 0,
        offset >= 0,
        limit >= 0,
    ensures
        page_window(total, offset + limit, limit).1 == page_window(total, offset, limit).0,
        page_window(total, offset + limit, limit).0 == page_window(total, offset, 2 * limit).0,
        page_window(total, offset, limit).1 == page_window(total, offset, 2 * limit).1,
        page_window(total, offset, limit).0 <= page_window(total, offset, limit).1 <= total,
        page_window(total, offset, limit).1 - page_window(total, offset, limit).0 <= limit,
{
}

/// A session listed for a project.
pub struct SessionInfo {
    pub id: String,
    pub title: String,
    pub started_at: String,
    pub message_count: usize,
    pub file_path: String,
}

/// The title and start time after one more header record: the first
/// timestamp seen is the start; a `custom_title` system record sets the
/// title; while there is no title, the first text of a user message,
/// cut to 80 characters, becomes it.
pub open spec fn header_step(acc: (Seq<char>, Seq<char>), j: JVal) -> (Seq<char>, Seq<char>) {
    let started = if acc.1.len() == 0 {
        match str_of(field(j, "timestamp"@)) {
            Some(ts) => ts,
            None => acc.1,
        }
    } else {
        acc.1
    };
    let ty = text_of(j, "type"@);
    let t1 = if ty == "system"@ && str_of(field(j, "subtype"@)) == Some("custom_title"@) {
        match str_of(field(j, "title"@)) {
            Some(t) => t,
            None => acc.0,
        }
    } else {
        acc.0
    };
    let t2 = if t1.len() == 0 && ty == "user"@ {
        match str_of(field_of(step_zero(field_of(field(j, "message"@), "parts"@)), "text"@)) {
            Some(x) => take_chars(x, 80),
            None => t1,
        }
    } else {
        t1
    };
    (t2, started)
}

/// The title and start time read from header records.
pub open spec fn header_fold(rs: Seq<JVal>) -> (Seq<char>, Seq<char>)
    decreases rs.len(),
{
    if rs.len() == 0 {
        (Seq::empty(), Seq::empty())
    } else {
        header_step(header_fold(rs.drop_last()), rs.last())
    }
}

/// The lines a header scan reads: the first twenty.
pub open spec fn head_lines(lines: Seq<Seq<char>>) -> Seq<Seq<char>> {
    if lines.len() <= 20 {
        lines
    } else {
        lines.take(20)
    }
}

/// A session's size-based message estimate: one per 500 bytes, at least one.
pub open spec fn estimated_messages(size: u64) -> usize {
    if size / 500 >= 1 {
        (size / 500) as usize
    } else {
        1
    }
}

/// Scans the first lines of a session file for its title and start time,
/// and estimates its message count from the file size.
pub fn quick_scan_header(lines: &Vec<String>, file_size: u64) -> (r: (String, String, usize))
    ensures
        r.0@ == header_fold(records_of(head_lines(views(lines@)))).0,
        r.1@ == header_fold(records_of(head_lines(views(lines@)))).1,
        r.2 == estimated_messages(file_size),
{
    let n = if lines.len() <= 20 {
        lines.len()
    } else {
        20
    };
    let mut head: Vec<String> = Vec::new();
    let mut k: usize = 0;
    while k < n
        invariant
            k <= n,
            n <= lines@.len(),
            views(head@) == views(lines@).take(k as int),
        decreases n - k,
    {
        let ghost before = views(head@);
        head.push(copy_string(&lines[k]));
        assert(views(head@) =~= before.push(lines@[k as int]@));
        assert(views(lines@).take(k + 1) =~= views(lines@).take(k as int).push(lines@[k as int]@));
        k = k + 1;
    }
    assert(views(head@) =~= head_lines(views(lines@)));
    let rs = read_records(&head);
    let ghost rv = view_elements(rs@);
    let mut title = String::new();
    let mut started = String::new();
    let mut i: usize = 0;
    assert(rv.take(0) =~= Seq::<JVal>::empty());
    while i < rs.len()
        invariant
            i <= rs@.len(),
            rv == view_elements(rs@),
            (title@, started@) == header_fold(rv.take(i as int)),
        decreases rs@.len() - i,
    {
        assert(rv.take(i + 1).drop_last() == rv.take(i as int));
        assert(rv.take(i + 1).last() == rv[i as int]);
        let j = &rs[i];
        assert(rv[i as int] == view_json(*j));
        proof {
            reveal_strlit("system");
            reveal_strlit("custom_title");
            reveal_strlit("user");
        }
        if started.as_str().is_empty() {
            match j.get("timestamp") {
                Some(x) => match x.as_str() {
                    Some(ts) => {
                        started = owned(ts);
                    },
                    None => {},
                },
                None => {},
            }
        }
        let ty = text_at(j, "type");
        if str_eq(ty.as_str(), "system") {
            let sub = match j.get("subtype") {
                Some(x) => x.as_str(),
                None => None,
            };
            let is_custom = match sub {
                Some(st) => str_eq(st, "custom_title"),
                None => false,
            };
            if is_custom {
                match j.get("title") {
                    Some(x) => match x.as_str() {
                        Some(t) => {
                            title = owned(t);
                        },
                        None => {},
                    },
                    None => {},
                }
            }
        }
        if title.as_str().is_empty() && str_eq(ty.as_str(), "user") {
            let parts = get_opt(j.get("message"), "parts");
            let first = get_step_zero(parts);
            match get_opt(first, "text") {
                Some(x) => match x.as_str() {
                    Some(t) => {
                        title = take_chars_exec(t, 80);
                    },
                    None => {},
                },
                None => {},
            }
        }
        i = i + 1;
    }
    assert(rv.take(rv.len() as int) == rv);
    let est: u64 = file_size / 500;
    let count: usize = if est >= 1 {
        est as usize
    } else {
        1
    };
    (title, started, count)
}

/// View of a listed session: id, title, start, messages and file.
pub open spec fn session_view(s: SessionInfo) -> (Seq<char>, Seq<char>, Seq<char>, usize, Seq<char>) {
    (s.id@, s.title@, s.started_at@, s.message_count, s.file_path@)
}

/// Views of listed sessions.
pub open spec fn sessions_view(s: Seq<SessionInfo>) -> Seq<(Seq<char>, Seq<char>, Seq<char>, usize, Seq<char>)> {
    Seq::new(s.len(), |i: int| session_view(s[i]))
}

/// A session goes first when it started later.
pub open spec fn started_later() -> spec_fn(
    (Seq<char>, Seq<char>, Seq<char>, usize, Seq<char>),
    (Seq<char>, Seq<char>, Seq<char>, usize, Seq<char>),
) -> bool {
    |a: (Seq<char>, Seq<char>, Seq<char>, usize, Seq<char>), b: (Seq<char>, Seq<char>, Seq<char>, usize, Seq<char>)|
        str_lt(b.2, a.2)
}

/// Orders listed sessions by start time, latest first, keeping the order
/// of sessions that started at the same time.
pub fn sort_sessions(v: Vec<SessionInfo>) -> (r: Vec<SessionInfo>)
    ensures
        sessions_view(r@) == stable_sort(sessions_view(v@), started_later()),
{
    let ghost sv = sessions_view(v@);
    let mut rest = v;
    let mut tail: Vec<SessionInfo> = Vec::new();
    while rest.len() > 0
        invariant
            sessions_view(rest@) + sessions_view(tail@).reverse() == sv,
        decreases rest@.len(),
    {
        let ghost r0 = sessions_view(rest@);
        let ghost t0 = sessions_view(tail@);
        let x = rest.pop().unwrap();
        tail.push(x);
        assert(sessions_view(rest@) =~= r0.drop_last());
        assert(sessions_view(tail@) =~= t0.push(session_view(x)));
        assert(sessions_view(rest@) + sessions_view(tail@).reverse() =~= r0 + t0.reverse());
    }
    assert(sessions_view(tail@).reverse() =~= sv);
    let ghost tv = sessions_view(tail@);
    let mut out: Vec<SessionInfo> = Vec::new();
    assert(sv.take(0) =~= Seq::<(Seq<char>, Seq<char>, Seq<char>, usize, Seq<char>)>::empty());
    assert(sessions_view(out@) =~= Seq::empty());
    let mut i: usize = 0;
    let n = tail.len();
    while tail.len() > 0
        invariant
            i + tail@.len() == n,
            n == sv.len(),
            sessions_view(tail@) == tv.take(tail@.len() as int),
            tv.reverse() == sv,
            tv.len() == n,
            sessions_view(out@) == stable_sort(sv.take(i as int), started_later()),
        decreases tail@.len(),
    {
        let ghost o = sessions_view(out@);
        let ghost t0 = tail@;
        let x = tail.pop().unwrap();
        let ghost xv = session_view(x);
        assert(x == t0[t0.len() - 1]);
        assert(sessions_view(t0)[t0.len() - 1] == xv);
        assert(xv == tv[tail@.len() as int]);
        assert(sv[i as int] == tv[n - 1 - i]);
        assert(sessions_view(tail@) =~= tv.take(tail@.len() as int));
        let mut p: usize = 0;
        assert(o.skip(0) == o);
        while p < out.len() && !str_less(out[p].started_at.as_str(), x.started_at.as_str())
            invariant
                p <= out@.len(),
                o == sessions_view(out@),
                xv == session_view(x),
                leading_not_after(o, xv, started_later()) == p + leading_not_after(o.skip(p as int), xv, started_later()),
            decreases out@.len() - p,
        {
            assert(o.skip(p as int)[0] == o[p as int]);
            assert(o.skip(p as int).drop_first() == o.skip(p + 1));
            p = p + 1;
        }
        proof {
            if p < o.len() {
                assert(o.skip(p as int)[0] == o[p as int]);
            } else {
                assert(o.skip(p as int).len() == 0);
            }
        }
        out.insert(p, x);
        assert(sv.take(i + 1).drop_last() == sv.take(i as int));
        assert(sv.take(i + 1).last() == sv[i as int]);
        assert(sessions_view(out@) =~= o.insert(p as int, xv));
        i = i + 1;
    }
    assert(sv.take(sv.len() as int) == sv);
    out
}

/// Listed sessions come out latest start first.
pub proof fn lemma_sessions_sorted(s: Seq<(Seq<char>, Seq<char>, Seq<char>, usize, Seq<char>)>)
    ensures
        sorted_by(stable_sort(s, started_later()), started_later()),
        stable_sort(s, started_later()).len() == s.len(),
{
    let f = started_later();
    assert forall|a: (Seq<char>, Seq<char>, Seq<char>, usize, Seq<char>)| !#[trigger] f(a, a) by {
        lemma_str_lt_irreflexive(a.2);
    }
    assert forall|
        a: (Seq<char>, Seq<char>, Seq<char>, usize, Seq<char>),
        b: (Seq<char>, Seq<char>, Seq<char>, usize, Seq<char>),
        c: (Seq<char>, Seq<char>, Seq<char>, usize, Seq<char>),
    | #[trigger] f(a, b) && #[trigger] f(b, c) implies f(a, c) by {
        lemma_str_lt_transitive(c.2, b.2, a.2);
    }
    lemma_stable_sort_sorted(s, f);
}


/// The records of a given `type`.
pub open spec fn type_count(rs: Seq<JVal>, t: Seq<char>) -> nat
    decreases rs.len(),
{
    if rs.len() == 0 {
        0
    } else {
        type_count(rs.drop_last(), t) + if text_of(rs.last(), "type"@) == t {
            1nat
        } else {
            0nat
        }
    }
}

/// The sum of a token count over the assistant records.
pub open spec fn assistant_sum(rs: Seq<JVal>, tokens: spec_fn(JVal) -> u64) -> nat
    decreases rs.len(),
{
    if rs.len() == 0 {
        0
    } else {
        assistant_sum(rs.drop_last(), tokens) + if text_of(rs.last(), "type"@) == "assistant"@ {
            tokens(rs.last()) as nat
        } else {
            0nat
        }
    }
}

/// A count held in a `u64`, stopping at the largest.
pub open spec fn cap_u64(n: nat) -> u64 {
    if n <= u64::MAX {
        n as u64
    } else {
        u64::MAX
    }
}

/// A session's statistics count every record, the user and the assistant
/// records, and sum the prompt, output (`candidatesTokenCount`) and cached
/// tokens over all assistant records, each sum stopping at the largest
/// `u64`.
pub proof fn lemma_stats_sum_records(rs: Seq<JVal>)
    requires
        rs.len() <= usize::MAX,
    ensures
        stats_fold(rs).messages == rs.len(),
        stats_fold(rs).users == type_count(rs, "user"@),
        stats_fold(rs).assistants == type_count(rs, "assistant"@),
        stats_fold(rs).input == cap_u64(assistant_sum(rs, |j: JVal| message_tokens(j).0)),
        stats_fold(rs).output == cap_u64(assistant_sum(rs, |j: JVal| message_tokens(j).1)),
        stats_fold(rs).cache_read == cap_u64(assistant_sum(rs, |j: JVal| cached_tokens(j))),
    decreases rs.len(),
{
    reveal_strlit("user");
    reveal_strlit("assistant");
    assert("user"@.len() != "assistant"@.len());
    if rs.len() > 0 {
        let rest = rs.drop_last();
        let j = rs.last();
        let t = text_of(j, "type"@);
        lemma_stats_sum_records(rest);
        lemma_type_count_bound(rest, "user"@);
        lemma_type_count_bound(rest, "assistant"@);
        let acc = stats_fold(rest);
        assert(stats_fold(rs) == stats_step(acc, j));
        let (i, o) = message_tokens(j);
        if t == "user"@ {
            assert(t != "assistant"@);
        } else if t == "assistant"@ {
            assert(stats_fold(rs).input == sat_add(acc.input, i));
            assert(stats_fold(rs).output == sat_add(acc.output, o));
            assert(stats_fold(rs).cache_read == sat_add(acc.cache_read, cached_tokens(j)));
        } else {
        }
    }
}

proof fn lemma_type_count_bound(rs: Seq<JVal>, t: Seq<char>)
    ensures
        type_count(rs, t) <= rs.len(),
    decreases rs.len(),
{
    if rs.len() > 0 {
        lemma_type_count_bound(rs.drop_last(), t);
    }
}

/// One more assistant record adds its output tokens to the session's
/// output, stopping at the largest `u64`.
pub proof fn lemma_assistant_adds_output(rs: Seq<JVal>, j: JVal)
    requires
        rs.len() < usize::MAX,
        text_of(j, "type"@) == "assistant"@,
    ensures
        stats_fold(rs.push(j)).output as int == if stats_fold(rs).output + message_tokens(j).1 <= u64::MAX {
            stats_fold(rs).output + message_tokens(j).1
        } else {
            u64::MAX as int
        },
{
    lemma_stats_sum_records(rs);
    lemma_stats_sum_records(rs.push(j));
    assert(rs.push(j).drop_last() =~= rs);
}

} // verus!
