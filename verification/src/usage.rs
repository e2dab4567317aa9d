use vstd::prelude::*;
use vstd::utf8::{decode_utf8, valid_utf8};

use crate::json::{
    element, field, field_of, field_str, field_u64, get_step_zero, opt_view, parse_json,
    parsed_json, step_zero, str_of, u64_of, view_json, JVal, JsonValue,
};
use crate::text::{
    chars_of, contains, decode_bytes, lemma_contains_in_subrange, lemma_line_contains, has_prefix, lines_of, split_lines, starts_with, str_contains,
    str_eq, string_of_range, views,
};

verus! {

/// Token counts and metadata read from an upstream response.
pub struct UsageSnapshot {
    pub input_tokens: u64,
    pub output_tokens: u64,
    pub cache_read_tokens: u64,
    pub cache_creation_tokens: u64,
    pub model: String,
    pub finish_reason: String,
}

/// Mathematical view of a [`UsageSnapshot`].
pub ghost struct SnapV {
    pub input: u64,
    pub output: u64,
    pub cache_read: u64,
    pub cache_creation: u64,
    pub model: Seq<char>,
    pub finish: Seq<char>,
}

impl UsageSnapshot {
    pub open spec fn view(&self) -> SnapV {
        SnapV {
            input: self.input_tokens,
            output: self.output_tokens,
            cache_read: self.cache_read_tokens,
            cache_creation: self.cache_creation_tokens,
            model: self.model@,
            finish: self.finish_reason@,
        }
    }
}

/// The snapshot before anything was read: all counts zero, texts empty.
pub open spec fn empty_snap() -> SnapV {
    SnapV {
        input: 0,
        output: 0,
        cache_read: 0,
        cache_creation: 0,
        model: Seq::empty(),
        finish: Seq::empty(),
    }
}

impl Default for UsageSnapshot {
    fn default() -> (r: Self)
        ensures
            r@ == empty_snap(),
    {
        UsageSnapshot {
            input_tokens: 0,
            output_tokens: 0,
            cache_read_tokens: 0,
            cache_creation_tokens: 0,
            model: String::new(),
            finish_reason: String::new(),
        }
    }
}

/// Reads usage data out of the bytes of an upstream response, as Server-Sent
/// Events or as one JSON body, in Anthropic or OpenAI form.
pub struct UsageExtractor {
    /// What has been read so far.
    pub snapshot: UsageSnapshot,
    /// Whether the endpoint speaks the Anthropic messages protocol.
    is_anthropic: bool,
}

impl UsageExtractor {
    /// Whether the extractor reads Anthropic events.
    pub closed spec fn anthropic(&self) -> bool {
        self.is_anthropic
    }

    /// The view of what has been read so far.
    pub closed spec fn snap(&self) -> SnapV {
        self.snapshot@
    }
}

/// The text marks one of the keys that usage data travels under.
pub open spec fn usage_hint(d: Seq<char>) -> bool {
    contains(d, "\"usage\""@) || contains(d, "\"input_tokens\""@) || contains(
        d,
        "\"output_tokens\""@,
    ) || contains(d, "\"prompt_tokens\""@) || contains(d, "\"completion_tokens\""@) || contains(
        d,
        "\"message_start\""@,
    ) || contains(d, "\"message_delta\""@) || contains(d, "\"message_stop\""@)
}

/// A quick scan for the keys that usage data travels under, so that only
/// chunks that may hold usage are parsed as JSON.
pub fn contains_usage_hint(data: &str) -> (r: bool)
    ensures
        r == usage_hint(data@),
{
    str_contains(data, "\"usage\"") || str_contains(data, "\"input_tokens\"") || str_contains(
        data,
        "\"output_tokens\"",
    ) || str_contains(data, "\"prompt_tokens\"") || str_contains(data, "\"completion_tokens\"")
        || str_contains(data, "\"message_start\"") || str_contains(data, "\"message_delta\"")
        || str_contains(data, "\"message_stop\"")
}

/// A count, or zero.
pub open spec fn or_zero(o: Option<u64>) -> u64 {
    match o {
        Some(u) => u,
        None => 0,
    }
}

/// A count, or the one already held.
pub open spec fn or_keep(o: Option<u64>, k: u64) -> u64 {
    match o {
        Some(u) => u,
        None => k,
    }
}

/// A text, or the one already held.
pub open spec fn text_or_keep(o: Option<Seq<char>>, k: Seq<char>) -> Seq<char> {
    match o {
        Some(t) => t,
        None => k,
    }
}

/// The first of two lookups that found something.
pub open spec fn first_present(a: Option<JVal>, b: Option<JVal>) -> Option<JVal> {
    match a {
        Some(x) => Some(x),
        None => b,
    }
}

/// The `type` of an event, or empty.
pub open spec fn event_type(j: JVal) -> Seq<char> {
    text_or_keep(str_of(field(j, "type"@)), Seq::empty())
}

/// An Anthropic `message_start` event sets the input and cache counts from
/// `message.usage` (zero where absent) and the model from `message.model`.
pub open spec fn message_start(s: SnapV, j: JVal) -> SnapV {
    let msg = field(j, "message"@);
    let s1 = match field_of(msg, "usage"@) {
        Some(u) => SnapV {
            input: or_zero(u64_of(field(u, "input_tokens"@))),
            cache_read: or_zero(u64_of(field(u, "cache_read_input_tokens"@))),
            cache_creation: or_zero(u64_of(field(u, "cache_creation_input_tokens"@))),
            ..s
        },
        None => s,
    };
    SnapV { model: text_or_keep(str_of(field_of(msg, "model"@)), s1.model), ..s1 }
}

/// An Anthropic `message_delta` event overrides each count found under
/// `usage`, and the finish reason from `delta.stop_reason`.
pub open spec fn message_delta(s: SnapV, j: JVal) -> SnapV {
    let u = field(j, "usage"@);
    SnapV {
        output: or_keep(u64_of(field_of(u, "output_tokens"@)), s.output),
        input: or_keep(u64_of(field_of(u, "input_tokens"@)), s.input),
        cache_read: or_keep(u64_of(field_of(u, "cache_read_input_tokens"@)), s.cache_read),
        cache_creation: or_keep(
            u64_of(field_of(u, "cache_creation_input_tokens"@)),
            s.cache_creation,
        ),
        finish: text_or_keep(str_of(field_of(field(j, "delta"@), "stop_reason"@)), s.finish),
        ..s
    }
}

/// The effect of one Anthropic stream event; other event types change
/// nothing.
pub open spec fn anthropic_event(s: SnapV, j: JVal) -> SnapV {
    let t = event_type(j);
    if t == "message_start"@ {
        message_start(s, j)
    } else if t == "message_delta"@ {
        message_delta(s, j)
    } else {
        s
    }
}

/// The effect of a whole (non-streamed) Anthropic response body.
pub open spec fn anthropic_body(s: SnapV, j: JVal) -> SnapV {
    let s1 = SnapV { model: text_or_keep(str_of(field(j, "model"@)), s.model), ..s };
    let s2 = match field(j, "usage"@) {
        Some(u) => SnapV {
            input: or_zero(u64_of(field(u, "input_tokens"@))),
            output: or_zero(u64_of(field(u, "output_tokens"@))),
            cache_read: or_zero(u64_of(field(u, "cache_read_input_tokens"@))),
            cache_creation: or_zero(u64_of(field(u, "cache_creation_input_tokens"@))),
            ..s1
        },
        None => s1,
    };
    SnapV { finish: text_or_keep(str_of(field(j, "stop_reason"@)), s2.finish), ..s2 }
}

/// The effect of one OpenAI event or body: the model, the counts under
/// `usage` (Chat names first, then Responses names), cached tokens, and the
/// finish reason of the first choice.
pub open spec fn openai_event(s: SnapV, j: JVal) -> SnapV {
    let s1 = SnapV { model: text_or_keep(str_of(field(j, "model"@)), s.model), ..s };
    let s2 = match field(j, "usage"@) {
        Some(u) => SnapV {
            input: or_keep(
                u64_of(first_present(field(u, "prompt_tokens"@), field(u, "input_tokens"@))),
                s1.input,
            ),
            output: or_keep(
                u64_of(first_present(field(u, "completion_tokens"@), field(u, "output_tokens"@))),
                s1.output,
            ),
            cache_read: or_keep(
                u64_of(field_of(field(u, "prompt_tokens_details"@), "cached_tokens"@)),
                s1.cache_read,
            ),
            ..s1
        },
        None => s1,
    };
    SnapV {
        finish: text_or_keep(
            str_of(field_of(step_zero(field(j, "choices"@)), "finish_reason"@)),
            s2.finish,
        ),
        ..s2
    }
}

/// The `data: ` prefix of an SSE line.
pub open spec fn data_prefix() -> Seq<char> {
    "data: "@
}

/// The effect of one line of the response text.
pub open spec fn line_step(anth: bool, s: SnapV, line: Seq<char>) -> SnapV {
    if has_prefix(line, data_prefix()) {
        let data = line.skip(data_prefix().len() as int);
        if data == "[DONE]"@ || !usage_hint(data) {
            s
        } else {
            match parsed_json(data) {
                Some(j) => if anth {
                    anthropic_event(s, j)
                } else {
                    openai_event(s, j)
                },
                None => s,
            }
        }
    } else {
        s
    }
}

/// The effect of the lines in order.
pub open spec fn apply_lines(anth: bool, s: SnapV, ls: Seq<Seq<char>>) -> SnapV
    decreases ls.len(),
{
    if ls.len() == 0 {
        s
    } else {
        apply_lines(anth, line_step(anth, s, ls[0]), ls.drop_first())
    }
}

/// Some line is an SSE `data:` line.
pub open spec fn any_data_line(ls: Seq<Seq<char>>) -> bool
    decreases ls.len(),
{
    ls.len() > 0 && (has_prefix(ls[0], data_prefix()) || any_data_line(ls.drop_first()))
}

/// The effect of one chunk of response bytes: nothing unless they are
/// UTF-8; each `data:` line otherwise; and, when there is no `data:` line,
/// the whole text read as one response body.
pub open spec fn chunk_effect(anth: bool, s: SnapV, bytes: Seq<u8>) -> SnapV {
    if !valid_utf8(bytes) {
        s
    } else {
        let text = decode_utf8(bytes);
        let ls = lines_of(text);
        let s1 = apply_lines(anth, s, ls);
        if !any_data_line(ls) && usage_hint(text) {
            match parsed_json(text) {
                Some(j) => if anth {
                    anthropic_body(s1, j)
                } else {
                    openai_event(s1, j)
                },
                None => s1,
            }
        } else {
            s1
        }
    }
}

impl UsageExtractor {
    /// An extractor for responses to `endpoint`; Anthropic events are read
    /// when the endpoint names `/messages`.
    pub fn new(endpoint: &str) -> (r: Self)
        ensures
            r.snap() == empty_snap(),
            r.anthropic() == contains(endpoint@, "/messages"@),
    {
        UsageExtractor { snapshot: UsageSnapshot::default(), is_anthropic: str_contains(endpoint, "/messages") }
    }

    /// Reads a chunk of response bytes into the snapshot.
    pub fn process_chunk(&mut self, chunk: &[u8])
        ensures
            final(self).anthropic() == old(self).anthropic(),
            final(self).snap() == chunk_effect(old(self).anthropic(), old(self).snap(), chunk@),
    {
        let text = match decode_bytes(chunk) {
            Some(t) => t,
            None => return ,
        };
        let lines = split_lines(text);
        let ghost ls = lines_of(text@);
        let ghost anth = self.is_anthropic;
        let ghost s0 = self.snapshot@;
        let mut found_sse = false;
        let mut i: usize = 0;
        assert(ls.skip(0) == ls);
        while i < lines.len()
            invariant
                views(lines@) == ls,
                i <= ls.len(),
                self.is_anthropic == anth,
                apply_lines(anth, s0, ls) == apply_lines(anth, self.snapshot@, ls.skip(i as int)),
                any_data_line(ls) == (found_sse || any_data_line(ls.skip(i as int))),
            decreases ls.len() - i,
        {
            let ghost before = self.snapshot@;
            assert(ls.skip(i as int)[0] == lines@[i as int]@);
            assert(ls.skip(i as int).drop_first() == ls.skip(i + 1));
            let lc = chars_of(lines[i].as_str());
            let pc = chars_of("data: ");
            if starts_with(lc.as_slice(), pc.as_slice()) {
                found_sse = true;
                proof {
                    reveal_strlit("data: ");
                }
                let data = string_of_range(lc.as_slice(), 6, lc.len());
                assert(data@ == lines@[i as int]@.skip(data_prefix().len() as int));
                if !str_eq(data.as_str(), "[DONE]") && contains_usage_hint(data.as_str()) {
                    match parse_json(data.as_str()) {
                        Some(json) => {
                            if self.is_anthropic {
                                self.parse_anthropic_event(&json);
                            } else {
                                self.parse_openai_event(&json);
                            }
                        },
                        None => {},
                    }
                }
            }
            assert(self.snapshot@ == line_step(anth, before, lines@[i as int]@));
            i = i + 1;
        }
        assert(ls.skip(i as int).len() == 0);
        if !found_sse && contains_usage_hint(text) {
            match parse_json(text) {
                Some(json) => {
                    if self.is_anthropic {
                        self.parse_non_stream_anthropic(&json);
                    } else {
                        self.parse_openai_event(&json);
                    }
                },
                None => {},
            }
        }
    }

    /// Applies one Anthropic stream event.
    fn parse_anthropic_event(&mut self, json: &JsonValue)
        ensures
            final(self).anthropic() == old(self).anthropic(),
            final(self).snap() == anthropic_event(old(self).snap(), view_json(*json)),
    {
        let event_type: Option<String> = field_str(Some(json), "type");
        let is_start = match &event_type {
            Some(t) => str_eq(t.as_str(), "message_start"),
            None => false,
        };
        let is_delta = match &event_type {
            Some(t) => str_eq(t.as_str(), "message_delta"),
            None => false,
        };
        proof {
            reveal_strlit("message_start");
            reveal_strlit("message_delta");
            assert("message_start"@.len() == 13);
            assert("message_delta"@.len() == 13);
            assert(Seq::<char>::empty().len() == 0);
        }
        if is_start {
            let msg = json.get("message");
            let usage = crate::json::get_opt(msg, "usage");
            if usage.is_some() {
                let it = field_u64(usage, "input_tokens");
                let cr = field_u64(usage, "cache_read_input_tokens");
                let cc = field_u64(usage, "cache_creation_input_tokens");
                self.snapshot.input_tokens = match it {
                    Some(v) => v,
                    None => 0,
                };
                self.snapshot.cache_read_tokens = match cr {
                    Some(v) => v,
                    None => 0,
                };
                self.snapshot.cache_creation_tokens = match cc {
                    Some(v) => v,
                    None => 0,
                };
            }
            if let Some(model) = field_str(msg, "model") {
                self.snapshot.model = model;
            }
        } else if is_delta {
            let usage = json.get("usage");
            if let Some(ot) = field_u64(usage, "output_tokens") {
                self.snapshot.output_tokens = ot;
            }
            if let Some(it) = field_u64(usage, "input_tokens") {
                self.snapshot.input_tokens = it;
            }
            if let Some(cr) = field_u64(usage, "cache_read_input_tokens") {
                self.snapshot.cache_read_tokens = cr;
            }
            if let Some(cc) = field_u64(usage, "cache_creation_input_tokens") {
                self.snapshot.cache_creation_tokens = cc;
            }
            if let Some(fr) = field_str(json.get("delta"), "stop_reason") {
                self.snapshot.finish_reason = fr;
            }
        }
    }

    /// Applies a whole Anthropic response body.
    fn parse_non_stream_anthropic(&mut self, json: &JsonValue)
        ensures
            final(self).anthropic() == old(self).anthropic(),
            final(self).snap() == anthropic_body(old(self).snap(), view_json(*json)),
    {
        if let Some(model) = field_str(Some(json), "model") {
            self.snapshot.model = model;
        }
        let usage = json.get("usage");
        if usage.is_some() {
            self.snapshot.input_tokens = match field_u64(usage, "input_tokens") {
                Some(v) => v,
                None => 0,
            };
            self.snapshot.output_tokens = match field_u64(usage, "output_tokens") {
                Some(v) => v,
                None => 0,
            };
            self.snapshot.cache_read_tokens = match field_u64(usage, "cache_read_input_tokens") {
                Some(v) => v,
                None => 0,
            };
            self.snapshot.cache_creation_tokens = match field_u64(
                usage,
                "cache_creation_input_tokens",
            ) {
                Some(v) => v,
                None => 0,
            };
        }
        if let Some(sr) = field_str(Some(json), "stop_reason") {
            self.snapshot.finish_reason = sr;
        }
    }

    /// Applies one OpenAI event or response body.
    fn parse_openai_event(&mut self, json: &JsonValue)
        ensures
            final(self).anthropic() == old(self).anthropic(),
            final(self).snap() == openai_event(old(self).snap(), view_json(*json)),
    {
        if let Some(model) = field_str(Some(json), "model") {
            self.snapshot.model = model;
        }
        let usage = json.get("usage");
        if usage.is_some() {
            let p = crate::json::get_opt(usage, "prompt_tokens");
            let inp = if p.is_some() {
                p
            } else {
                crate::json::get_opt(usage, "input_tokens")
            };
            if let Some(x) = inp {
                if let Some(v) = x.as_u64() {
                    self.snapshot.input_tokens = v;
                }
            }
            let c = crate::json::get_opt(usage, "completion_tokens");
            let out = if c.is_some() {
                c
            } else {
                crate::json::get_opt(usage, "output_tokens")
            };
            if let Some(x) = out {
                if let Some(v) = x.as_u64() {
                    self.snapshot.output_tokens = v;
                }
            }
            if let Some(cached) = field_u64(
                crate::json::get_opt(usage, "prompt_tokens_details"),
                "cached_tokens",
            ) {
                self.snapshot.cache_read_tokens = cached;
            }
        }
        let first = get_step_zero(json.get("choices"));
        if let Some(fr) = field_str(first, "finish_reason") {
            self.snapshot.finish_reason = fr;
        }
    }

    /// Whether any input or output tokens were read.
    pub fn has_usage(&self) -> (r: bool)
        ensures
            r == (self.snap().input > 0 || self.snap().output > 0),
    {
        self.snapshot.input_tokens > 0 || self.snapshot.output_tokens > 0
    }
}


/// A line without any usage key changes nothing.
proof fn lemma_line_without_hint(anth: bool, s: SnapV, line: Seq<char>)
    requires
        !usage_hint(line),
    ensures
        line_step(anth, s, line) == s,
{
    if has_prefix(line, data_prefix()) {
        let n = data_prefix().len() as int;
        let data = line.skip(n);
        assert(data =~= line.subrange(n, line.len() as int));
        if usage_hint(data) {
            if contains(data, "\"usage\""@) {
                lemma_contains_in_subrange(line, n, line.len() as int, "\"usage\""@);
            } else if contains(data, "\"input_tokens\""@) {
                lemma_contains_in_subrange(line, n, line.len() as int, "\"input_tokens\""@);
            } else if contains(data, "\"output_tokens\""@) {
                lemma_contains_in_subrange(line, n, line.len() as int, "\"output_tokens\""@);
            } else if contains(data, "\"prompt_tokens\""@) {
                lemma_contains_in_subrange(line, n, line.len() as int, "\"prompt_tokens\""@);
            } else if contains(data, "\"completion_tokens\""@) {
                lemma_contains_in_subrange(line, n, line.len() as int, "\"completion_tokens\""@);
            } else if contains(data, "\"message_start\""@) {
                lemma_contains_in_subrange(line, n, line.len() as int, "\"message_start\""@);
            } else if contains(data, "\"message_delta\""@) {
                lemma_contains_in_subrange(line, n, line.len() as int, "\"message_delta\""@);
            } else {
                lemma_contains_in_subrange(line, n, line.len() as int, "\"message_stop\""@);
            }
        }
    }
}

/// A line of a text without usage keys has none either.
proof fn lemma_lines_without_hint(text: Seq<char>, k: int)
    requires
        !usage_hint(text),
        0 <= k < lines_of(text).len(),
    ensures
        !usage_hint(lines_of(text)[k]),
{
    let l = lines_of(text)[k];
    if contains(l, "\"usage\""@) {
        lemma_line_contains(text, k, "\"usage\""@);
    }
    if contains(l, "\"input_tokens\""@) {
        lemma_line_contains(text, k, "\"input_tokens\""@);
    }
    if contains(l, "\"output_tokens\""@) {
        lemma_line_contains(text, k, "\"output_tokens\""@);
    }
    if contains(l, "\"prompt_tokens\""@) {
        lemma_line_contains(text, k, "\"prompt_tokens\""@);
    }
    if contains(l, "\"completion_tokens\""@) {
        lemma_line_contains(text, k, "\"completion_tokens\""@);
    }
    if contains(l, "\"message_start\""@) {
        lemma_line_contains(text, k, "\"message_start\""@);
    }
    if contains(l, "\"message_delta\""@) {
        lemma_line_contains(text, k, "\"message_delta\""@);
    }
    if contains(l, "\"message_stop\""@) {
        lemma_line_contains(text, k, "\"message_stop\""@);
    }
}

/// Lines without usage keys change nothing.
proof fn lemma_apply_without_hint(anth: bool, s: SnapV, ls: Seq<Seq<char>>)
    requires
        forall|k: int| 0 <= k < ls.len() ==> !usage_hint(#[trigger] ls[k]),
    ensures
        apply_lines(anth, s, ls) == s,
    decreases ls.len(),
{
    if ls.len() > 0 {
        lemma_line_without_hint(anth, s, ls[0]);
        assert forall|k: int| 0 <= k < ls.drop_first().len() implies !usage_hint(
            #[trigger] ls.drop_first()[k],
        ) by {
            assert(ls.drop_first()[k] == ls[k + 1]);
        }
        lemma_apply_without_hint(anth, s, ls.drop_first());
    }
}

/// A chunk whose text holds none of the usage keys leaves the snapshot as
/// it was, whatever protocol is read: such chunks are skipped without
/// parsing.
pub proof fn lemma_chunk_without_hint_keeps_snapshot(anth: bool, s: SnapV, bytes: Seq<u8>)
    requires
        valid_utf8(bytes) ==> !usage_hint(decode_utf8(bytes)),
    ensures
        chunk_effect(anth, s, bytes) == s,
{
    if valid_utf8(bytes) {
        let text = decode_utf8(bytes);
        let ls = lines_of(text);
        assert forall|k: int| 0 <= k < ls.len() implies !usage_hint(#[trigger] ls[k]) by {
            lemma_lines_without_hint(text, k);
        }
        lemma_apply_without_hint(anth, s, ls);
    }
}

} // verus!
