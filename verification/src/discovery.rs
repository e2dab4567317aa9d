use vstd::prelude::*;

use crate::json::{
    copy_json, empty_object, field, find_member, find_member_index, first_key_index,
    lemma_first_key_index, lemma_view_array, lemma_view_object, member_or_empty, members_insert,
    members_of, obj_insert, obj_lookup, parse_json, parsed_json, str_of, str_value, view_elements,
    view_json, view_members, write_json, json_text, JNum, JVal, JsonNumber, JsonValue,
};
use crate::presets::{ModelPreset, ProviderPreset};
use crate::seqs::{
    first_match, last_match, lemma_first_match_at, lemma_first_match_none, lemma_last_match_at,
    lemma_last_match_none,
};
use crate::sync::{model_preset_supports, model_supports, preset_supports, supports};
use crate::text::{
    chars_of, copy_string, has_prefix, index_or_len, index_or_len_exec, lemma_index_or_len_bound,
    lines_of, owned, split_lines, str_eq, string_of_range, trim, trim_bounds, trim_string, views,
};
use crate::upstream::{extract_host, host_of};

verus! {

/// The key and value of a `.env` line: the line trimmed, not empty and not a
/// `#` comment, split at its first `=`, both sides trimmed, and the value
/// not empty.
pub open spec fn env_line_entry(line: Seq<char>) -> Option<(Seq<char>, Seq<char>)> {
    let l = trim(line);
    if l.len() == 0 || l[0] == '#' {
        None
    } else {
        let i = index_or_len(l, '=');
        if i >= l.len() {
            None
        } else {
            let v = trim(l.skip(i + 1));
            if v.len() == 0 {
                None
            } else {
                Some((trim(l.take(i)), v))
            }
        }
    }
}

/// Reads one `.env` line.
pub fn parse_env_line(line: &str) -> (r: Option<(String, String)>)
    ensures
        match r {
            Some((k, v)) => env_line_entry(line@) == Some((k@, v@)),
            None => env_line_entry(line@) is None,
        },
{
    let l = trim_string(line);
    let cs = chars_of(l.as_str());
    if cs.len() == 0 || cs[0] == '#' {
        return None;
    }
    let i = index_or_len_exec(cs.as_slice(), '=', 0);
    proof {
        lemma_index_or_len_bound(cs@, '=');
        assert(cs@.skip(0) == cs@);
    }
    if i >= cs.len() {
        return None;
    }
    let vs = string_of_range(cs.as_slice(), i + 1, cs.len());
    let v = trim_string(vs.as_str());
    assert(cs@.subrange(i + 1, cs@.len() as int) == cs@.skip(i + 1));
    if v.as_str().is_empty() {
        return None;
    }
    let ks = string_of_range(cs.as_slice(), 0, i);
    assert(cs@.subrange(0, i as int) == cs@.take(i as int));
    let k = trim_string(ks.as_str());
    Some((k, v))
}

/// The API-key lookup table: the system environment, then the `.env` file,
/// then the non-empty texts of the settings' `env` object, later sources
/// overriding earlier ones.
pub open spec fn key_table(
    system: Seq<(Seq<char>, Seq<char>)>,
    env_lines: Seq<Seq<char>>,
    settings_env: Option<Seq<(Seq<char>, JVal)>>,
) -> Seq<(Seq<char>, JVal)> {
    let t1 = insert_pairs(Seq::empty(), system);
    let t2 = insert_env_lines(t1, env_lines);
    match settings_env {
        Some(es) => insert_env_members(t2, es),
        None => t2,
    }
}

/// The table with each pair set in turn.
pub open spec fn insert_pairs(t: Seq<(Seq<char>, JVal)>, ps: Seq<(Seq<char>, Seq<char>)>) -> Seq<(Seq<char>, JVal)>
    decreases ps.len(),
{
    if ps.len() == 0 {
        t
    } else {
        obj_insert(insert_pairs(t, ps.drop_last()), ps.last().0, JVal::Str(ps.last().1))
    }
}

/// The table with the entry of each `.env` line set in turn.
pub open spec fn insert_env_lines(t: Seq<(Seq<char>, JVal)>, ls: Seq<Seq<char>>) -> Seq<(Seq<char>, JVal)>
    decreases ls.len(),
{
    if ls.len() == 0 {
        t
    } else {
        let prev = insert_env_lines(t, ls.drop_last());
        match env_line_entry(ls.last()) {
            Some((k, v)) => obj_insert(prev, k, JVal::Str(v)),
            None => prev,
        }
    }
}

/// The table with each non-empty text member set in turn.
pub open spec fn insert_env_members(t: Seq<(Seq<char>, JVal)>, es: Seq<(Seq<char>, JVal)>) -> Seq<(Seq<char>, JVal)>
    decreases es.len(),
{
    if es.len() == 0 {
        t
    } else {
        let prev = insert_env_members(t, es.drop_last());
        match es.last().1 {
            JVal::Str(s) => if s.len() > 0 {
                obj_insert(prev, es.last().0, JVal::Str(s))
            } else {
                prev
            },
            _ => prev,
        }
    }
}

/// Views of string pairs.
pub open spec fn pairs_view(ps: Seq<(String, String)>) -> Seq<(Seq<char>, Seq<char>)> {
    Seq::new(ps.len(), |i: int| (ps[i].0@, ps[i].1@))
}

/// The view of an optional text.
pub open spec fn opt_text(o: Option<&str>) -> Option<Seq<char>> {
    match o {
        Some(s) => Some(s@),
        None => None,
    }
}

/// The lines of an optional `.env` text.
pub open spec fn env_file_lines(content: Option<Seq<char>>) -> Seq<Seq<char>> {
    match content {
        Some(c) => lines_of(c),
        None => Seq::empty(),
    }
}

/// Builds the API-key lookup table from the system environment, the
/// `.env` text (when there is one) and the settings.
pub fn build_key_table(
    system: &Vec<(String, String)>,
    env_file: Option<&str>,
    settings: &JsonValue,
) -> (r: Vec<(String, JsonValue)>)
    ensures
        view_members(r@) == key_table(
            pairs_view(system@),
            env_file_lines(opt_text(env_file)),
            members_of(field(view_json(*settings), "env"@)),
        ),
{
    let mut t: Vec<(String, JsonValue)> = Vec::new();
    assert(view_members(t@) =~= Seq::empty());
    let ghost sp = pairs_view(system@);
    let mut i: usize = 0;
    while i < system.len()
        invariant
            i <= system@.len(),
            sp == pairs_view(system@),
            view_members(t@) == insert_pairs(Seq::empty(), sp.take(i as int)),
        decreases system@.len() - i,
    {
        assert(sp.take(i + 1).drop_last() == sp.take(i as int));
        assert(sp.take(i + 1).last() == sp[i as int]);
        members_insert(&mut t, copy_string(&system[i].0), str_value(&system[i].1));
        i = i + 1;
    }
    assert(sp.take(sp.len() as int) == sp);
    let ghost t1 = view_members(t@);
    let lines: Vec<String> = match env_file {
        Some(c) => split_lines(c),
        None => Vec::new(),
    };
    let ghost ls = env_file_lines(opt_text(env_file));
    assert(views(lines@) =~= ls);
    let mut j: usize = 0;
    while j < lines.len()
        invariant
            j <= lines@.len(),
            views(lines@) == ls,
            view_members(t@) == insert_env_lines(t1, ls.take(j as int)),
        decreases lines@.len() - j,
    {
        assert(ls.take(j + 1).drop_last() == ls.take(j as int));
        assert(ls.take(j + 1).last() == lines@[j as int]@);
        match parse_env_line(lines[j].as_str()) {
            Some((k, v)) => {
                members_insert(&mut t, k, JsonValue::Str(v));
            },
            None => {},
        }
        j = j + 1;
    }
    assert(ls.take(ls.len() as int) == ls);
    let ghost t2 = view_members(t@);
    match settings.get("env") {
        Some(e) => match e.as_object() {
            Some(em) => {
                let ghost es = view_members(em@);
                let mut k: usize = 0;
                while k < em.len()
                    invariant
                        k <= em@.len(),
                        es == view_members(em@),
                        view_members(t@) == insert_env_members(t2, es.take(k as int)),
                    decreases em@.len() - k,
                {
                    assert(es.take(k + 1).drop_last() == es.take(k as int));
                    assert(es.take(k + 1).last() == es[k as int]);
                    match &em[k].1 {
                        JsonValue::Str(s) => {
                            if !s.as_str().is_empty() {
                                members_insert(&mut t, copy_string(&em[k].0), str_value(s));
                            }
                        },
                        _ => {},
                    }
                    k = k + 1;
                }
                assert(es.take(es.len() as int) == es);
            },
            None => {},
        },
        None => {},
    }
    t
}


/// A non-negative integer number.
pub open spec fn num(u: u64) -> JVal {
    JVal::Number(JNum::PosInt(u))
}

/// An object `{m: true, ...}` for a list of modalities.
pub open spec fn modality_map(ms: Seq<String>) -> Seq<(Seq<char>, JVal)>
    decreases ms.len(),
{
    if ms.len() == 0 {
        Seq::empty()
    } else {
        obj_insert(modality_map(ms.drop_last()), ms.last()@, JVal::Bool(true))
    }
}

/// The generation settings a template model fixes, set over `base`:
/// `contextWindowSize`, `samplingParams.max_tokens`, `modalities` and
/// `thinking`, each only where the template gives it.
pub open spec fn preset_generation(pm: ModelPreset, base: Seq<(Seq<char>, JVal)>) -> Seq<(Seq<char>, JVal)> {
    let g1 = match pm.context_window_size {
        Some(c) => obj_insert(base, "contextWindowSize"@, num(c)),
        None => base,
    };
    let g2 = match pm.max_output_tokens {
        Some(m) => obj_insert(g1, "samplingParams"@, JVal::Object(seq![("max_tokens"@, num(m))])),
        None => g1,
    };
    let g3 = match pm.input_modalities {
        Some(ms) => obj_insert(g2, "modalities"@, JVal::Object(modality_map(ms@))),
        None => g2,
    };
    match pm.thinking {
        Some(t) => obj_insert(g3, "thinking"@, view_json(t)),
        None => g3,
    }
}

/// A number value.
fn num_value(u: u64) -> (r: JsonValue)
    ensures
        view_json(r) == num(u),
{
    JsonValue::Number(JsonNumber::PosInt(u))
}

/// Sets a template model's generation settings over `g`.
pub fn apply_preset_generation(g: &mut Vec<(String, JsonValue)>, pm: &ModelPreset)
    ensures
        view_members(final(g)@) == preset_generation(*pm, view_members(old(g)@)),
{
    if let Some(c) = pm.context_window_size {
        members_insert(g, owned("contextWindowSize"), num_value(c));
    }
    if let Some(m) = pm.max_output_tokens {
        let sp = vec![(owned("max_tokens"), num_value(m))];
        proof {
            lemma_view_object(sp);
            assert(view_members(sp@) =~= seq![("max_tokens"@, num(m))]);
        }
        members_insert(g, owned("samplingParams"), JsonValue::Object(sp));
    }
    if let Some(ms) = &pm.input_modalities {
        let mut mm: Vec<(String, JsonValue)> = Vec::new();
        assert(view_members(mm@) =~= Seq::empty());
        let mut i: usize = 0;
        while i < ms.len()
            invariant
                i <= ms@.len(),
                view_members(mm@) == modality_map(ms@.take(i as int)),
            decreases ms@.len() - i,
        {
            assert(ms@.take(i + 1).drop_last() == ms@.take(i as int));
            assert(ms@.take(i + 1).last() == ms@[i as int]);
            members_insert(&mut mm, copy_string(&ms[i]), JsonValue::Bool(true));
            i = i + 1;
        }
        assert(ms@.take(ms@.len() as int) == ms@);
        proof {
            lemma_view_object(mm);
        }
        members_insert(g, owned("modalities"), JsonValue::Object(mm));
    }
    if let Some(t) = &pm.thinking {
        members_insert(g, owned("thinking"), copy_json(t));
    }
}

/// The first protocol of a template: that of its first model, or `openai`.
pub open spec fn first_protocol(p: ProviderPreset) -> Seq<char> {
    if p.models@.len() > 0 && p.models@[0].auth_type@.len() > 0 {
        p.models@[0].auth_type@[0]@
    } else {
        "openai"@
    }
}

/// A template with a non-empty host `h` whose first protocol is `proto`.
pub open spec fn discovery_key(h: Seq<char>, proto: Seq<char>) -> spec_fn(ProviderPreset) -> bool {
    |p: ProviderPreset| host_of(p.base_url@).len() > 0 && host_of(p.base_url@) == h && first_protocol(p) == proto
}

/// The template that discovery matches to a host and protocol: the last
/// one with that host whose first protocol it is.
pub open spec fn discovery_preset(presets: Seq<ProviderPreset>, h: Seq<char>, proto: Seq<char>) -> Option<int> {
    last_match(presets, discovery_key(h, proto))
}

/// A template with a non-empty host `h` that serves protocol `proto`.
pub open spec fn completion_key(h: Seq<char>, proto: Seq<char>) -> spec_fn(ProviderPreset) -> bool {
    |p: ProviderPreset| host_of(p.base_url@).len() > 0 && host_of(p.base_url@) == h && supports(p, proto)
}

/// The template that model completion matches to a host and protocol: the
/// last one with that host serving the protocol.
pub open spec fn completion_preset(presets: Seq<ProviderPreset>, h: Seq<char>, proto: Seq<char>) -> Option<int> {
    last_match(presets, completion_key(h, proto))
}

/// The first protocol of a template.
fn first_protocol_exec(p: &ProviderPreset) -> (r: String)
    ensures
        r@ == first_protocol(*p),
{
    if p.models.len() > 0 && p.models[0].auth_type.len() > 0 {
        copy_string(&p.models[0].auth_type[0])
    } else {
        owned("openai")
    }
}

/// Finds the template that discovery matches to a host and protocol.
pub fn find_discovery_preset(presets: &[ProviderPreset], host: &str, proto: &str) -> (r: Option<usize>)
    ensures
        match r {
            Some(i) => i < presets@.len() && discovery_preset(presets@, host@, proto@) == Some(i as int),
            None => discovery_preset(presets@, host@, proto@) is None,
        },
{
    let ghost f = discovery_key(host@, proto@);
    let mut i = presets.len();
    while i > 0
        invariant
            i <= presets@.len(),
            f == discovery_key(host@, proto@),
            forall|j: int| i <= j < presets@.len() ==> !f(#[trigger] presets@[j]),
        decreases i,
    {
        let p = &presets[i - 1];
        let ph = extract_host(p.base_url.as_str());
        let fp = first_protocol_exec(p);
        if !ph.as_str().is_empty() && str_eq(ph.as_str(), host) && str_eq(fp.as_str(), proto) {
            proof {
                lemma_last_match_at(presets@, f, i - 1);
            }
            return Some(i - 1);
        }
        i = i - 1;
    }
    proof {
        lemma_last_match_none(presets@, f);
    }
    None
}

/// Finds the template that model completion matches to a host and protocol.
pub fn find_completion_preset(presets: &[ProviderPreset], host: &str, proto: &str) -> (r: Option<usize>)
    ensures
        match r {
            Some(i) => i < presets@.len() && completion_preset(presets@, host@, proto@) == Some(i as int),
            None => completion_preset(presets@, host@, proto@) is None,
        },
{
    let ghost f = completion_key(host@, proto@);
    let mut i = presets.len();
    while i > 0
        invariant
            i <= presets@.len(),
            f == completion_key(host@, proto@),
            forall|j: int| i <= j < presets@.len() ==> !f(#[trigger] presets@[j]),
        decreases i,
    {
        let p = &presets[i - 1];
        let ph = extract_host(p.base_url.as_str());
        if !ph.as_str().is_empty() && str_eq(ph.as_str(), host) && preset_supports(p, proto) {
            proof {
                lemma_last_match_at(presets@, f, i - 1);
            }
            return Some(i - 1);
        }
        i = i - 1;
    }
    proof {
        lemma_last_match_none(presets@, f);
    }
    None
}

/// The template model with id `id`.
pub open spec fn has_model_id(id: Seq<char>) -> spec_fn(ModelPreset) -> bool {
    |m: ModelPreset| m.id@ == id
}

/// Finds the first template model with the given id.
pub fn find_model_preset(ms: &Vec<ModelPreset>, id: &str) -> (r: Option<usize>)
    ensures
        match r {
            Some(i) => i < ms@.len() && first_match(ms@, has_model_id(id@)) == Some(i as int),
            None => first_match(ms@, has_model_id(id@)) is None,
        },
{
    let mut i: usize = 0;
    while i < ms.len()
        invariant
            i <= ms@.len(),
            forall|q: int| 0 <= q < i ==> !(#[trigger] has_model_id(id@)(ms@[q])),
        decreases ms@.len() - i,
    {
        if str_eq(ms[i].id.as_str(), id) {
            proof {
                lemma_first_match_at(ms@, has_model_id(id@), i as int);
            }
            return Some(i);
        }
        i = i + 1;
    }
    proof {
        lemma_first_match_none(ms@, has_model_id(id@));
    }
    None
}


/// A model found in the user's settings or added from a template.
pub struct DiscoveredModel {
    pub id: String,
    pub name: String,
    pub auth_type: Vec<String>,
    pub config_json: Option<String>,
    pub valid: bool,
    pub from_preset: bool,
}

/// A provider found in the user's settings.
pub struct DiscoveredProvider {
    pub name: String,
    pub base_url: String,
    pub protocol: String,
    pub env_key: String,
    pub has_key: bool,
    pub is_preset: bool,
    pub preset_name: Option<String>,
    pub models: Vec<DiscoveredModel>,
    pub valid: bool,
    pub error: Option<String>,
}

/// Mathematical view of a [`DiscoveredModel`].
pub ghost struct DModelV {
    pub id: Seq<char>,
    pub name: Seq<char>,
    pub auth_type: Seq<Seq<char>>,
    pub config_json: Option<Seq<char>>,
    pub valid: bool,
    pub from_preset: bool,
}

/// Mathematical view of a [`DiscoveredProvider`].
pub ghost struct DProviderV {
    pub name: Seq<char>,
    pub base_url: Seq<char>,
    pub protocol: Seq<char>,
    pub env_key: Seq<char>,
    pub has_key: bool,
    pub is_preset: bool,
    pub preset_name: Option<Seq<char>>,
    pub models: Seq<DModelV>,
    pub valid: bool,
    pub error: Option<Seq<char>>,
}

/// The view of an optional string.
pub open spec fn ostr(o: Option<String>) -> Option<Seq<char>> {
    match o {
        Some(s) => Some(s@),
        None => None,
    }
}

impl DiscoveredModel {
    pub open spec fn view(&self) -> DModelV {
        DModelV {
            id: self.id@,
            name: self.name@,
            auth_type: views(self.auth_type@),
            config_json: ostr(self.config_json),
            valid: self.valid,
            from_preset: self.from_preset,
        }
    }
}

/// Views of discovered models.
pub open spec fn dmodels_view(s: Seq<DiscoveredModel>) -> Seq<DModelV> {
    Seq::new(s.len(), |i: int| s[i]@)
}

impl DiscoveredProvider {
    pub open spec fn view(&self) -> DProviderV {
        DProviderV {
            name: self.name@,
            base_url: self.base_url@,
            protocol: self.protocol@,
            env_key: self.env_key@,
            has_key: self.has_key,
            is_preset: self.is_preset,
            preset_name: ostr(self.preset_name),
            models: dmodels_view(self.models@),
            valid: self.valid,
            error: ostr(self.error),
        }
    }
}

/// Views of discovered providers.
pub open spec fn dproviders_view(s: Seq<DiscoveredProvider>) -> Seq<DProviderV> {
    Seq::new(s.len(), |i: int| s[i]@)
}

/// A text, or a fallback.
pub open spec fn text_or(o: Option<Seq<char>>, d: Seq<char>) -> Seq<char> {
    match o {
        Some(t) => t,
        None => d,
    }
}

/// The base URL of an entry, or empty.
pub open spec fn url_of(e: JVal) -> Seq<char> {
    text_or(str_of(field(e, "baseUrl"@)), Seq::empty())
}

/// The id of an entry, or empty.
pub open spec fn id_of(e: JVal) -> Seq<char> {
    text_or(str_of(field(e, "id"@)), Seq::empty())
}

/// The text under `key` of a value, or empty.
fn text_field(e: &JsonValue, key: &str) -> (r: String)
    ensures
        r@ == text_or(str_of(field(view_json(*e), key@)), Seq::empty()),
{
    match e.get(key) {
        Some(x) => match x.as_str() {
            Some(t) => owned(t),
            None => String::new(),
        },
        None => String::new(),
    }
}

/// The distinct base URLs of the entries, in order of first appearance.
pub open spec fn distinct_urls(es: Seq<JVal>) -> Seq<Seq<char>>
    decreases es.len(),
{
    if es.len() == 0 {
        Seq::empty()
    } else {
        let prev = distinct_urls(es.drop_last());
        if prev.contains(url_of(es.last())) {
            prev
        } else {
            prev.push(url_of(es.last()))
        }
    }
}

/// The entries with base URL `u`, in order.
pub open spec fn entries_at(es: Seq<JVal>, u: Seq<char>) -> Seq<JVal>
    decreases es.len(),
{
    if es.len() == 0 {
        Seq::empty()
    } else {
        let prev = entries_at(es.drop_last(), u);
        if url_of(es.last()) == u {
            prev.push(es.last())
        } else {
            prev
        }
    }
}

/// Whether a list of strings holds `t`.
fn contains_text(v: &Vec<String>, t: &str) -> (r: bool)
    ensures
        r == views(v@).contains(t@),
{
    let mut i: usize = 0;
    while i < v.len()
        invariant
            i <= v@.len(),
            forall|q: int| 0 <= q < i ==> v@[q]@ != t@,
        decreases v@.len() - i,
    {
        if str_eq(v[i].as_str(), t) {
            assert(views(v@)[i as int] == t@);
            return true;
        }
        i = i + 1;
    }
    assert forall|q: int| 0 <= q < views(v@).len() implies views(v@)[q] != t@ by {}
    false
}

/// The distinct base URLs of entries.
fn collect_urls(es: &Vec<JsonValue>) -> (r: Vec<String>)
    ensures
        views(r@) == distinct_urls(view_elements(es@)),
{
    let ghost ev = view_elements(es@);
    let mut out: Vec<String> = Vec::new();
    assert(views(out@) =~= Seq::empty());
    let mut i: usize = 0;
    while i < es.len()
        invariant
            i <= es@.len(),
            ev == view_elements(es@),
            views(out@) == distinct_urls(ev.take(i as int)),
        decreases es@.len() - i,
    {
        assert(ev.take(i + 1).drop_last() == ev.take(i as int));
        assert(ev.take(i + 1).last() == ev[i as int]);
        let u = text_field(&es[i], "baseUrl");
        if !contains_text(&out, u.as_str()) {
            let ghost before = views(out@);
            out.push(u);
            assert(views(out@) =~= before.push(u@));
        }
        i = i + 1;
    }
    assert(ev.take(ev.len() as int) == ev);
    out
}

/// The entries with a given base URL.
fn collect_entries_at(es: &Vec<JsonValue>, u: &str) -> (r: Vec<JsonValue>)
    ensures
        view_elements(r@) == entries_at(view_elements(es@), u@),
{
    let ghost ev = view_elements(es@);
    let mut out: Vec<JsonValue> = Vec::new();
    assert(view_elements(out@) =~= Seq::empty());
    let mut i: usize = 0;
    while i < es.len()
        invariant
            i <= es@.len(),
            ev == view_elements(es@),
            view_elements(out@) == entries_at(ev.take(i as int), u@),
        decreases es@.len() - i,
    {
        assert(ev.take(i + 1).drop_last() == ev.take(i as int));
        assert(ev.take(i + 1).last() == ev[i as int]);
        let eu = text_field(&es[i], "baseUrl");
        if str_eq(eu.as_str(), u) {
            let ghost before = view_elements(out@);
            out.push(copy_json(&es[i]));
            assert(view_elements(out@) =~= before.push(ev[i as int]));
        }
        i = i + 1;
    }
    assert(ev.take(ev.len() as int) == ev);
    out
}


/// The generation config an entry carries, as compact JSON text: a
/// non-empty object, or nothing.
pub open spec fn stored_config(e: JVal) -> Option<Seq<char>> {
    match field(e, "generationConfig"@) {
        Some(JVal::Object(g)) => if g.len() > 0 {
            Some(json_text(JVal::Object(g)))
        } else {
            None
        },
        _ => None,
    }
}

/// The members of a config text that reads as a JSON object, or none.
pub open spec fn config_members(cfg: Option<Seq<char>>) -> Seq<(Seq<char>, JVal)> {
    match cfg {
        Some(t) => match parsed_json(t) {
            Some(JVal::Object(es)) => es,
            _ => Seq::empty(),
        },
        None => Seq::empty(),
    }
}

/// The template model with the given id, in an optional template.
pub open spec fn template_model(matched: Option<ProviderPreset>, id: Seq<char>) -> Option<ModelPreset> {
    match matched {
        Some(p) => match first_match(p.models@, has_model_id(id)) {
            Some(k) => Some(p.models@[k]),
            None => None,
        },
        None => None,
    }
}

/// A model found in the settings: its name (or the id), the template
/// model's protocols (or the group's protocol), and its config with the
/// template's generation settings taking precedence.
pub open spec fn entry_model(e: JVal, id: Seq<char>, protocol: Seq<char>, matched: Option<ProviderPreset>) -> DModelV {
    let pm = template_model(matched, id);
    let cfg0 = stored_config(e);
    DModelV {
        id,
        name: text_or(str_of(field(e, "name"@)), id),
        auth_type: match pm {
            Some(m) => views(m.auth_type@),
            None => seq![protocol],
        },
        config_json: match pm {
            Some(m) => {
                let g = preset_generation(m, config_members(cfg0));
                if g.len() > 0 {
                    Some(json_text(JVal::Object(g)))
                } else {
                    cfg0
                }
            },
            None => cfg0,
        },
        valid: true,
        from_preset: false,
    }
}

/// The models of a group's entries, each id once (entries without id
/// skipped), with the ids seen.
pub open spec fn group_models(es: Seq<JVal>, protocol: Seq<char>, matched: Option<ProviderPreset>) -> (Seq<DModelV>, Seq<Seq<char>>)
    decreases es.len(),
{
    if es.len() == 0 {
        (Seq::empty(), Seq::empty())
    } else {
        let (ms, seen) = group_models(es.drop_last(), protocol, matched);
        let id = id_of(es.last());
        if id.len() == 0 || seen.contains(id) {
            (ms, seen)
        } else {
            (ms.push(entry_model(es.last(), id, protocol, matched)), seen.push(id))
        }
    }
}

/// A template model added to a group: its own id, name, protocols and
/// generation settings.
pub open spec fn template_entry(pm: ModelPreset) -> DModelV {
    let g = preset_generation(pm, Seq::empty());
    DModelV {
        id: pm.id@,
        name: pm.name@,
        auth_type: views(pm.auth_type@),
        config_json: if g.len() > 0 {
            Some(json_text(JVal::Object(g)))
        } else {
            None
        },
        valid: true,
        from_preset: true,
    }
}

/// The models after adding the template models of the protocol that the
/// settings lack.
pub open spec fn preset_fill(
    pms: Seq<ModelPreset>,
    protocol: Seq<char>,
    st: (Seq<DModelV>, Seq<Seq<char>>),
) -> (Seq<DModelV>, Seq<Seq<char>>)
    decreases pms.len(),
{
    if pms.len() == 0 {
        st
    } else {
        let (ms, seen) = preset_fill(pms.drop_last(), protocol, st);
        let pm = pms.last();
        if seen.contains(pm.id@) || !model_supports(pm, protocol) {
            (ms, seen)
        } else {
            (ms.push(template_entry(pm)), seen.push(pm.id@))
        }
    }
}

/// Compact JSON text of an object's members.
fn object_text(g: Vec<(String, JsonValue)>) -> (r: String)
    ensures
        r@ == json_text(JVal::Object(view_members(g@))),
{
    proof {
        lemma_view_object(g);
    }
    write_json(&JsonValue::Object(g))
}

/// Builds the model of a settings entry.
fn build_entry_model(e: &JsonValue, id: &String, protocol: &String, matched: Option<&ProviderPreset>) -> (r: DiscoveredModel)
    ensures
        r@ == entry_model(view_json(*e), id@, protocol@, match matched {
            Some(p) => Some(*p),
            None => None,
        }),
{
    let ghost mv = match matched {
        Some(p) => Some(*p),
        None => None::<ProviderPreset>,
    };
    let name = match e.get("name") {
        Some(x) => match x.as_str() {
            Some(t) => owned(t),
            None => copy_string(id),
        },
        None => copy_string(id),
    };
    let pm: Option<&ModelPreset> = match matched {
        Some(p) => match find_model_preset(&p.models, id.as_str()) {
            Some(k) => Some(&p.models[k]),
            None => None,
        },
        None => None,
    };
    assert(match pm {
        Some(m) => template_model(mv, id@) == Some(*m),
        None => template_model(mv, id@) is None,
    });
    let auth: Vec<String> = match pm {
        Some(m) => {
            let mut v: Vec<String> = Vec::new();
            let mut i: usize = 0;
            while i < m.auth_type.len()
                invariant
                    i <= m.auth_type@.len(),
                    views(v@) == views(m.auth_type@).take(i as int),
                decreases m.auth_type@.len() - i,
            {
                let ghost before = views(v@);
                let c = copy_string(&m.auth_type[i]);
                v.push(c);
                assert(views(v@) =~= before.push(c@));
                assert(views(m.auth_type@).take(i + 1) =~= views(m.auth_type@).take(i as int).push(
                    m.auth_type@[i as int]@,
                ));
                i = i + 1;
            }
            assert(views(m.auth_type@).take(m.auth_type@.len() as int) == views(m.auth_type@));
            v
        },
        None => {
            let v = vec![copy_string(protocol)];
            assert(views(v@) =~= seq![protocol@]);
            v
        },
    };
    let cfg0: Option<String> = match e.get("generationConfig") {
        Some(g) => match g.as_object() {
            Some(gm) => if gm.len() > 0 {
                proof {
                    lemma_view_object(*gm);
                }
                Some(write_json(g))
            } else {
                None
            },
            None => None,
        },
        None => None,
    };
    assert(ostr(cfg0) == stored_config(view_json(*e)));
    let cfg: Option<String> = match pm {
        Some(m) => {
            let mut gen: Vec<(String, JsonValue)> = match &cfg0 {
                Some(t) => match parse_json(t.as_str()) {
                    Some(JsonValue::Object(es)) => {
                        proof {
                            lemma_view_object(es);
                        }
                        es
                    },
                    _ => {
                        let es: Vec<(String, JsonValue)> = Vec::new();
                        assert(view_members(es@) =~= Seq::empty());
                        es
                    },
                },
                None => {
                    let es: Vec<(String, JsonValue)> = Vec::new();
                    assert(view_members(es@) =~= Seq::empty());
                    es
                },
            };
            assert(view_members(gen@) == config_members(ostr(cfg0)));
            apply_preset_generation(&mut gen, m);
            if gen.len() > 0 {
                Some(object_text(gen))
            } else {
                cfg0
            }
        },
        None => cfg0,
    };
    DiscoveredModel { id: copy_string(id), name, auth_type: auth, config_json: cfg, valid: true, from_preset: false }
}


/// An optional template, by value.
pub open spec fn opt_preset(p: Option<&ProviderPreset>) -> Option<ProviderPreset> {
    match p {
        Some(x) => Some(*x),
        None => None,
    }
}

/// Collects the models of a group's entries.
fn build_group_models(
    es: &Vec<JsonValue>,
    protocol: &String,
    matched: Option<&ProviderPreset>,
) -> (r: (Vec<DiscoveredModel>, Vec<String>))
    ensures
        (dmodels_view(r.0@), views(r.1@)) == group_models(view_elements(es@), protocol@, opt_preset(matched)),
{
    let ghost ev = view_elements(es@);
    let mut ms: Vec<DiscoveredModel> = Vec::new();
    let mut seen: Vec<String> = Vec::new();
    assert(dmodels_view(ms@) =~= Seq::empty());
    assert(views(seen@) =~= Seq::empty());
    let mut i: usize = 0;
    while i < es.len()
        invariant
            i <= es@.len(),
            ev == view_elements(es@),
            (dmodels_view(ms@), views(seen@)) == group_models(ev.take(i as int), protocol@, opt_preset(matched)),
        decreases es@.len() - i,
    {
        assert(ev.take(i + 1).drop_last() == ev.take(i as int));
        assert(ev.take(i + 1).last() == ev[i as int]);
        let id = text_field(&es[i], "id");
        if !id.as_str().is_empty() && !contains_text(&seen, id.as_str()) {
            let m = build_entry_model(&es[i], &id, protocol, matched);
            let ghost m0 = dmodels_view(ms@);
            let ghost s0 = views(seen@);
            ms.push(m);
            seen.push(id);
            assert(dmodels_view(ms@) =~= m0.push(m@));
            assert(views(seen@) =~= s0.push(id@));
        }
        i = i + 1;
    }
    assert(ev.take(ev.len() as int) == ev);
    (ms, seen)
}

/// Builds the model added from a template.
fn build_template_entry(pm: &ModelPreset) -> (r: DiscoveredModel)
    ensures
        r@ == template_entry(*pm),
{
    let mut gen: Vec<(String, JsonValue)> = Vec::new();
    assert(view_members(gen@) =~= Seq::empty());
    apply_preset_generation(&mut gen, pm);
    let cfg = if gen.len() > 0 {
        Some(object_text(gen))
    } else {
        None
    };
    let mut auth: Vec<String> = Vec::new();
    let mut i: usize = 0;
    while i < pm.auth_type.len()
        invariant
            i <= pm.auth_type@.len(),
            views(auth@) == views(pm.auth_type@).take(i as int),
        decreases pm.auth_type@.len() - i,
    {
        let ghost before = views(auth@);
        let c = copy_string(&pm.auth_type[i]);
        auth.push(c);
        assert(views(auth@) =~= before.push(c@));
        assert(views(pm.auth_type@).take(i + 1) =~= views(pm.auth_type@).take(i as int).push(
            pm.auth_type@[i as int]@,
        ));
        i = i + 1;
    }
    assert(views(pm.auth_type@).take(pm.auth_type@.len() as int) == views(pm.auth_type@));
    DiscoveredModel {
        id: copy_string(&pm.id),
        name: copy_string(&pm.name),
        auth_type: auth,
        config_json: cfg,
        valid: true,
        from_preset: true,
    }
}

/// Adds the template models of the protocol that the settings lack.
fn fill_from_preset(
    pms: &Vec<ModelPreset>,
    protocol: &String,
    ms: &mut Vec<DiscoveredModel>,
    seen: &mut Vec<String>,
)
    ensures
        (dmodels_view(final(ms)@), views(final(seen)@)) == preset_fill(
            pms@,
            protocol@,
            (dmodels_view(old(ms)@), views(old(seen)@)),
        ),
{
    let ghost st0 = (dmodels_view(ms@), views(seen@));
    let mut i: usize = 0;
    assert(pms@.take(0) =~= Seq::<ModelPreset>::empty());
    while i < pms.len()
        invariant
            i <= pms@.len(),
            (dmodels_view(ms@), views(seen@)) == preset_fill(pms@.take(i as int), protocol@, st0),
        decreases pms@.len() - i,
    {
        assert(pms@.take(i + 1).drop_last() == pms@.take(i as int));
        assert(pms@.take(i + 1).last() == pms@[i as int]);
        let pm = &pms[i];
        if !contains_text(seen, pm.id.as_str()) && model_preset_supports(pm, protocol.as_str()) {
            let m = build_template_entry(pm);
            let ghost m0 = dmodels_view(ms@);
            let ghost s0 = views(seen@);
            ms.push(m);
            let c = copy_string(&pm.id);
            seen.push(c);
            assert(dmodels_view(ms@) =~= m0.push(m@));
            assert(views(seen@) =~= s0.push(c@));
        }
        i = i + 1;
    }
    assert(pms@.take(pms@.len() as int) == pms@);
}

/// A non-empty text value.
pub open spec fn nonempty_text(v: JVal) -> bool {
    match v {
        JVal::Str(t) => t.len() > 0,
        _ => false,
    }
}

/// Whether some member holds a non-empty text.
pub open spec fn any_nonempty_text(hs: Seq<(Seq<char>, JVal)>) -> bool {
    exists|i: int| 0 <= i < hs.len() && nonempty_text(#[trigger] hs[i].1)
}

/// Whether a group has an API key: any non-empty custom header of its
/// first entry, or else a non-empty key for its env-var name.
pub open spec fn group_has_key(first: JVal, env_key: Seq<char>, table: Seq<(Seq<char>, JVal)>) -> bool {
    match crate::json::field_of(field(first, "generationConfig"@), "customHeaders"@) {
        Some(JVal::Object(hs)) => any_nonempty_text(hs),
        _ => env_key.len() > 0 && match str_of(obj_lookup(table, env_key)) {
            Some(v) => v.len() > 0,
            None => false,
        },
    }
}

/// Checks whether a group has an API key.
fn has_key_exec(first: &JsonValue, env_key: &String, table: &Vec<(String, JsonValue)>) -> (r: bool)
    ensures
        r == group_has_key(view_json(*first), env_key@, view_members(table@)),
{
    let hdrs = crate::json::get_opt(first.get("generationConfig"), "customHeaders");
    match hdrs {
        Some(h) => match h.as_object() {
            Some(hm) => {
                let ghost hs = view_members(hm@);
                assert(crate::json::field_of(field(view_json(*first), "generationConfig"@), "customHeaders"@)
                    == Some(JVal::Object(hs)));
                let mut i: usize = 0;
                while i < hm.len()
                    invariant
                        i <= hm@.len(),
                        hs == view_members(hm@),
                        crate::json::field_of(field(view_json(*first), "generationConfig"@), "customHeaders"@)
                            == Some(JVal::Object(hs)),
                        forall|q: int| 0 <= q < i ==> !nonempty_text(#[trigger] hs[q].1),
                    decreases hm@.len() - i,
                {
                    match &hm[i].1 {
                        JsonValue::Str(t) => {
                            if !t.as_str().is_empty() {
                                assert(hs[i as int].1 == JVal::Str(t@));
                                assert(nonempty_text(hs[i as int].1));
                                assert(any_nonempty_text(hs));
                                return true;
                            }
                        },
                        _ => {},
                    }
                    i = i + 1;
                }
                return false;
            },
            None => {},
        },
        None => {},
    }
    if env_key.as_str().is_empty() {
        return false;
    }
    match find_member(table, env_key.as_str()) {
        Some(k) => match table[k].1.as_str() {
            Some(v) => !v.is_empty(),
            None => false,
        },
        None => false,
    }
}

/// The provider discovered for the entries of one base URL under a
/// protocol: nothing for an empty URL or when no model results.
pub open spec fn group_provider(
    protocol: Seq<char>,
    u: Seq<char>,
    group: Seq<JVal>,
    presets: Seq<ProviderPreset>,
    table: Seq<(Seq<char>, JVal)>,
) -> Option<DProviderV> {
    if u.len() == 0 || group.len() == 0 {
        None
    } else {
        let host = host_of(u);
        let env_key = text_or(str_of(field(group[0], "envKey"@)), Seq::empty());
        let mi = discovery_preset(presets, host, protocol);
        let matched = match mi {
            Some(i) => Some(presets[i]),
            None => None,
        };
        let st = group_models(group, protocol, matched);
        let ms = match matched {
            Some(p) => preset_fill(p.models@, protocol, st).0,
            None => st.0,
        };
        if ms.len() == 0 {
            None
        } else {
            Some(
                DProviderV {
                    name: match matched {
                        Some(p) => p.name@,
                        None => host,
                    },
                    base_url: u,
                    protocol,
                    env_key,
                    has_key: group_has_key(group[0], env_key, table),
                    is_preset: matched is Some,
                    preset_name: match matched {
                        Some(p) => Some(p.name@),
                        None => None,
                    },
                    models: ms,
                    valid: true,
                    error: None,
                },
            )
        }
    }
}

/// The providers discovered under one protocol, by base URL in order of
/// first appearance.
pub open spec fn protocol_providers(
    protocol: Seq<char>,
    es: Seq<JVal>,
    urls: Seq<Seq<char>>,
    presets: Seq<ProviderPreset>,
    table: Seq<(Seq<char>, JVal)>,
) -> Seq<DProviderV>
    decreases urls.len(),
{
    if urls.len() == 0 {
        Seq::empty()
    } else {
        let prev = protocol_providers(protocol, es, urls.drop_last(), presets, table);
        match group_provider(protocol, urls.last(), entries_at(es, urls.last()), presets, table) {
            Some(p) => prev.push(p),
            None => prev,
        }
    }
}

/// Builds the provider of one base URL.
fn build_group_provider(
    protocol: &String,
    u: &String,
    group: &Vec<JsonValue>,
    presets: &[ProviderPreset],
    table: &Vec<(String, JsonValue)>,
) -> (r: Option<DiscoveredProvider>)
    ensures
        match r {
            Some(p) => group_provider(protocol@, u@, view_elements(group@), presets@, view_members(table@))
                == Some(p@),
            None => group_provider(protocol@, u@, view_elements(group@), presets@, view_members(table@)) is None,
        },
{
    if u.as_str().is_empty() || group.len() == 0 {
        return None;
    }
    let ghost gv = view_elements(group@);
    assert(gv[0] == view_json(group@[0]));
    let host = extract_host(u.as_str());
    let env_key = text_field(&group[0], "envKey");
    let mi = find_discovery_preset(presets, host.as_str(), protocol.as_str());
    let matched: Option<&ProviderPreset> = match mi {
        Some(i) => Some(&presets[i]),
        None => None,
    };
    let (mut ms, mut seen) = build_group_models(group, protocol, matched);
    if let Some(p) = matched {
        fill_from_preset(&p.models, protocol, &mut ms, &mut seen);
    }
    if ms.len() == 0 {
        return None;
    }
    let has_key = has_key_exec(&group[0], &env_key, table);
    let name = match matched {
        Some(p) => copy_string(&p.name),
        None => copy_string(&host),
    };
    let preset_name = match matched {
        Some(p) => Some(copy_string(&p.name)),
        None => None,
    };
    Some(
        DiscoveredProvider {
            name,
            base_url: copy_string(u),
            protocol: copy_string(protocol),
            env_key,
            has_key,
            is_preset: matched.is_some(),
            preset_name,
            models: ms,
            valid: true,
            error: None,
        },
    )
}

/// The providers discovered in the settings' `modelProviders`: for each
/// protocol whose value is a list, in order.
pub open spec fn discovered_providers(
    mp: Seq<(Seq<char>, JVal)>,
    presets: Seq<ProviderPreset>,
    table: Seq<(Seq<char>, JVal)>,
) -> Seq<DProviderV>
    decreases mp.len(),
{
    if mp.len() == 0 {
        Seq::empty()
    } else {
        let prev = discovered_providers(mp.drop_last(), presets, table);
        match mp.last().1 {
            JVal::Array(es) => prev + protocol_providers(mp.last().0, es, distinct_urls(es), presets, table),
            _ => prev,
        }
    }
}

/// Finds the providers already configured in the user's settings: for each
/// protocol, one provider per base URL, named after its matching template
/// (by host and protocol) or its host, with the models of its entries
/// completed from the template, and whether an API key is available from
/// the system environment, the `.env` text or the settings.
pub fn discover_existing_providers(
    settings: &JsonValue,
    system_env: &Vec<(String, String)>,
    env_file: Option<&str>,
    presets: &[ProviderPreset],
) -> (r: Vec<DiscoveredProvider>)
    ensures
        dproviders_view(r@) == match members_of(field(view_json(*settings), "modelProviders"@)) {
            Some(mp) => discovered_providers(
                mp,
                presets@,
                key_table(
                    pairs_view(system_env@),
                    env_file_lines(opt_text(env_file)),
                    members_of(field(view_json(*settings), "env"@)),
                ),
            ),
            None => Seq::empty(),
        },
{
    let mut out: Vec<DiscoveredProvider> = Vec::new();
    assert(dproviders_view(out@) =~= Seq::empty());
    let mp = match settings.get("modelProviders") {
        Some(v) => match v.as_object() {
            Some(m) => m,
            None => return out,
        },
        None => return out,
    };
    let table = build_key_table(system_env, env_file, settings);
    let ghost tv = view_members(table@);
    let ghost mpv = view_members(mp@);
    let mut k: usize = 0;
    while k < mp.len()
        invariant
            k <= mp@.len(),
            mpv == view_members(mp@),
            tv == view_members(table@),
            dproviders_view(out@) == discovered_providers(mpv.take(k as int), presets@, tv),
        decreases mp@.len() - k,
    {
        assert(mpv.take(k + 1).drop_last() == mpv.take(k as int));
        assert(mpv.take(k + 1).last() == mpv[k as int]);
        let protocol = &mp[k].0;
        match &mp[k].1 {
            JsonValue::Array(es) => {
                proof {
                    lemma_view_array(*es);
                }
                let ghost ev = view_elements(es@);
                let ghost base = dproviders_view(out@);
                let urls = collect_urls(es);
                let ghost uv = views(urls@);
                let mut j: usize = 0;
                assert(uv.take(0) =~= Seq::<Seq<char>>::empty());
                assert(base + protocol_providers(protocol@, ev, uv.take(0), presets@, tv) =~= base);
                while j < urls.len()
                    invariant
                        j <= uv.len(),
                        uv == views(urls@),
                        ev == view_elements(es@),
                        tv == view_members(table@),
                        dproviders_view(out@) == base + protocol_providers(protocol@, ev, uv.take(j as int), presets@, tv),
                    decreases uv.len() - j,
                {
                    assert(uv.take(j + 1).drop_last() == uv.take(j as int));
                    assert(uv.take(j + 1).last() == urls@[j as int]@);
                    let group = collect_entries_at(es, urls[j].as_str());
                    match build_group_provider(protocol, &urls[j], &group, presets, &table) {
                        Some(p) => {
                            let ghost o0 = dproviders_view(out@);
                            out.push(p);
                            assert(dproviders_view(out@) =~= o0.push(p@));
                        },
                        None => {},
                    }
                    j = j + 1;
                }
                assert(uv.take(uv.len() as int) == uv);
            },
            _ => {},
        }
        k = k + 1;
    }
    assert(mpv.take(mpv.len() as int) == mpv);
    out
}


/// The non-empty ids of a list of entries, in order.
pub open spec fn entry_ids(es: Seq<JVal>) -> Seq<Seq<char>>
    decreases es.len(),
{
    if es.len() == 0 {
        Seq::empty()
    } else {
        let prev = entry_ids(es.drop_last());
        match str_of(field(es.last(), "id"@)) {
            Some(id) => if id.len() > 0 {
                prev.push(id)
            } else {
                prev
            },
            None => prev,
        }
    }
}

/// The non-empty ids of every protocol's entries, in order.
pub open spec fn configured_ids(mp: Seq<(Seq<char>, JVal)>) -> Seq<Seq<char>>
    decreases mp.len(),
{
    if mp.len() == 0 {
        Seq::empty()
    } else {
        let prev = configured_ids(mp.drop_last());
        match mp.last().1 {
            JVal::Array(es) => prev + entry_ids(es),
            _ => prev,
        }
    }
}

/// The model ids configured in the settings' `modelProviders`: every
/// non-empty id once, in ascending order.
pub fn extract_configured_model_ids(settings: &JsonValue) -> (r: Vec<String>)
    ensures
        views(r@) == match members_of(field(view_json(*settings), "modelProviders"@)) {
            Some(mp) => crate::order::sorted_distinct(configured_ids(mp)),
            None => Seq::empty(),
        },
        crate::order::strictly_sorted(views(r@)),
        views(r@).to_set() == match members_of(field(view_json(*settings), "modelProviders"@)) {
            Some(mp) => configured_ids(mp).to_set(),
            None => Set::empty(),
        },
{
    let mut ids: Vec<String> = Vec::new();
    assert(views(ids@) =~= Seq::empty());
    assert(views(ids@).to_set() =~= Set::empty());
    let mp = match settings.get("modelProviders") {
        Some(v) => match v.as_object() {
            Some(m) => m,
            None => return ids,
        },
        None => return ids,
    };
    let ghost mpv = view_members(mp@);
    let mut k: usize = 0;
    while k < mp.len()
        invariant
            k <= mp@.len(),
            mpv == view_members(mp@),
            crate::order::strictly_sorted(views(ids@)),
            views(ids@) == crate::order::sorted_distinct(configured_ids(mpv.take(k as int))),
        decreases mp@.len() - k,
    {
        assert(mpv.take(k + 1).drop_last() == mpv.take(k as int));
        assert(mpv.take(k + 1).last() == mpv[k as int]);
        match &mp[k].1 {
            JsonValue::Array(es) => {
                proof {
                    lemma_view_array(*es);
                }
                let ghost ev = view_elements(es@);
                let ghost before = configured_ids(mpv.take(k as int));
                let mut j: usize = 0;
                assert(before + entry_ids(ev.take(0)) =~= before);
                while j < es.len()
                    invariant
                        j <= es@.len(),
                        ev == view_elements(es@),
                        crate::order::strictly_sorted(views(ids@)),
                        views(ids@) == crate::order::sorted_distinct(before + entry_ids(ev.take(j as int))),
                    decreases es@.len() - j,
                {
                    assert(ev.take(j + 1).drop_last() == ev.take(j as int));
                    assert(ev.take(j + 1).last() == ev[j as int]);
                    let ghost prev = before + entry_ids(ev.take(j as int));
                    match es[j].get("id") {
                        Some(x) => match x.as_str() {
                            Some(id) => {
                                if !id.is_empty() {
                                    crate::order::insert_sorted(&mut ids, owned(id));
                                    assert(before + entry_ids(ev.take(j + 1)) =~= prev.push(id@));
                                    assert(prev.push(id@).drop_last() == prev);
                                }
                            },
                            None => {},
                        },
                        None => {},
                    }
                    j = j + 1;
                }
                assert(ev.take(ev.len() as int) == ev);
            },
            _ => {},
        }
        k = k + 1;
    }
    assert(mpv.take(mpv.len() as int) == mpv);
    proof {
        crate::order::lemma_sorted_distinct(configured_ids(mpv));
    }
    ids
}


/// A found model comes from entry `e`: it has the entry's non-empty id,
/// and the entry's `name` text as its name, or its id when the entry has
/// no text name.
pub open spec fn named_from_entry(dm: DModelV, e: JVal) -> bool {
    &&& id_of(e) == dm.id
    &&& dm.id.len() > 0
    &&& match str_of(field(e, "name"@)) {
        Some(t) => dm.name == t,
        None => dm.name == dm.id,
    }
}

/// Every model found in a group's entries comes from one of the entries:
/// it carries that entry's id and is named by the entry's `name` text, or
/// by its id when the entry has no text name.
pub proof fn lemma_group_model_names(es: Seq<JVal>, protocol: Seq<char>, matched: Option<ProviderPreset>)
    ensures
        forall|k: int|
            0 <= k < group_models(es, protocol, matched).0.len() ==> exists|j: int|
                0 <= j < es.len() && named_from_entry(#[trigger] group_models(es, protocol, matched).0[k], es[j]),
    decreases es.len(),
{
    if es.len() > 0 {
        let rest = es.drop_last();
        lemma_group_model_names(rest, protocol, matched);
        let ms0 = group_models(rest, protocol, matched).0;
        let ms = group_models(es, protocol, matched).0;
        let n = es.len() - 1;
        assert forall|k: int| 0 <= k < ms.len() implies exists|j: int|
            0 <= j < es.len() && named_from_entry(#[trigger] group_models(es, protocol, matched).0[k], es[j]) by {
            if k < ms0.len() {
                assert(ms[k] == ms0[k]);
                assert(ms0[k] == group_models(rest, protocol, matched).0[k]);
                let j = choose|j: int| 0 <= j < rest.len() && named_from_entry(group_models(rest, protocol, matched).0[k], rest[j]);
                assert(es[j] == rest[j]);
                assert(named_from_entry(ms[k], es[j]));
            } else {
                assert(es[n] == es.last());
                assert(ms[k] == entry_model(es.last(), id_of(es.last()), protocol, matched));
                assert(named_from_entry(ms[k], es[n]));
            }
        }
    }
}

} // verus!
