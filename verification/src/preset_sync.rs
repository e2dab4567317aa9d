use vstd::prelude::*;

use crate::config::lemma_lookup_after_insert;
use crate::discovery::{
    apply_preset_generation, build_key_table, completion_preset, env_file_lines, find_completion_preset,
    find_model_preset, has_model_id, id_of, key_table, num, opt_text, pairs_view, preset_generation, text_or, url_of,
};
use crate::json::{
    copy_json, copy_members, field, find_member, lemma_view_array, members_of, view_elements, lemma_first_key_index, lemma_view_object, members_insert, obj_insert,
    obj_lookup, str_of, view_json, view_members, JVal, JsonNumber, JsonValue,
};
use crate::presets::{ModelPreset, ProviderPreset};
use crate::seqs::{first_match, lemma_first_match, lemma_first_match_at, lemma_first_match_none};
use crate::tally::add_sat;
use crate::upstream::{extract_host, host_of};
use crate::sync::{model_preset_supports, model_supports};
use crate::text::{copy_string, lowercase, owned, str_eq, to_lower, views};

verus! {

/// A template model gives at least one generation setting.
pub open spec fn has_fields(pm: ModelPreset) -> bool {
    pm.context_window_size is Some || pm.max_output_tokens is Some || pm.thinking is Some
        || pm.input_modalities is Some
}

/// An entry's members with a template model's generation settings applied
/// to its `generationConfig` (created empty when missing; left alone when
/// it is not an object).
pub open spec fn with_generation(es: Seq<(Seq<char>, JVal)>, pm: ModelPreset) -> Seq<(Seq<char>, JVal)> {
    match obj_lookup(es, "generationConfig"@) {
        Some(JVal::Object(g)) => obj_insert(es, "generationConfig"@, JVal::Object(preset_generation(pm, g))),
        Some(_) => es,
        None => obj_insert(es, "generationConfig"@, JVal::Object(preset_generation(pm, Seq::empty()))),
    }
}

/// An entry's members with header `h` set to `kv` in
/// `generationConfig.customHeaders`, each level created when missing and
/// left alone when it is not an object.
pub open spec fn with_header(es: Seq<(Seq<char>, JVal)>, h: Seq<char>, kv: Seq<char>) -> Seq<(Seq<char>, JVal)> {
    let hv = JVal::Str(kv);
    match obj_lookup(es, "generationConfig"@) {
        Some(JVal::Object(g)) => {
            let g2 = match obj_lookup(g, "customHeaders"@) {
                Some(JVal::Object(hm)) => obj_insert(g, "customHeaders"@, JVal::Object(obj_insert(hm, h, hv))),
                Some(_) => g,
                None => obj_insert(g, "customHeaders"@, JVal::Object(obj_insert(Seq::empty(), h, hv))),
            };
            obj_insert(es, "generationConfig"@, JVal::Object(g2))
        },
        Some(_) => es,
        None => obj_insert(
            es,
            "generationConfig"@,
            JVal::Object(obj_insert(Seq::empty(), "customHeaders"@, JVal::Object(obj_insert(Seq::empty(), h, hv)))),
        ),
    }
}

/// The members of an object, or none.
pub open spec fn members_or_empty(v: JVal) -> Seq<(Seq<char>, JVal)> {
    match v {
        JVal::Object(m) => m,
        _ => Seq::empty(),
    }
}

/// An entry's members with a context window size set in its
/// `generationConfig` (created when missing; left alone when it is not an
/// object).
pub open spec fn with_window(es: Seq<(Seq<char>, JVal)>, c: u64) -> Seq<(Seq<char>, JVal)> {
    match obj_lookup(es, "generationConfig"@) {
        Some(JVal::Object(g)) => obj_insert(es, "generationConfig"@, JVal::Object(obj_insert(g, "contextWindowSize"@, num(c)))),
        Some(_) => es,
        None => obj_insert(
            es,
            "generationConfig"@,
            JVal::Object(obj_insert(Seq::empty(), "contextWindowSize"@, num(c))),
        ),
    }
}

/// An entry's members with the template's auth header set, when the
/// template names a header other than `authorization` and the key table
/// holds a non-empty key under the entry's `envKey` (or the template's key
/// name).
pub open spec fn with_key_header(t: Seq<(Seq<char>, JVal)>, p: ProviderPreset, table: Seq<(Seq<char>, JVal)>) -> Seq<(Seq<char>, JVal)> {
    match p.auth_header {
        Some(h) => if lowercase(h@) != "authorization"@ {
            let env_key = text_or(str_of(obj_lookup(t, "envKey"@)), p.env_prefix@);
            match str_of(obj_lookup(table, env_key)) {
                Some(kv) => if kv.len() > 0 {
                    with_header(t, h@, kv)
                } else {
                    t
                },
                None => t,
            }
        } else {
            t
        },
        None => t,
    }
}

/// The entry added for a template model missing from a group: the group's
/// first entry with the model's id and name, its generation settings, and,
/// when the template names a header other than `authorization`, that
/// header with the key its `envKey` (or the template's key name) finds in
/// the key table.
pub open spec fn added_entry(template: JVal, pm: ModelPreset, p: ProviderPreset, table: Seq<(Seq<char>, JVal)>) -> JVal {
    let t1 = obj_insert(obj_insert(members_or_empty(template), "id"@, JVal::Str(pm.id@)), "name"@, JVal::Str(pm.name@));
    JVal::Object(with_key_header(with_generation(t1, pm), p, table))
}

/// Looks up a member's value.
fn lookup<'a>(m: &'a Vec<(String, JsonValue)>, key: &str) -> (r: Option<&'a JsonValue>)
    ensures
        match r {
            Some(v) => obj_lookup(view_members(m@), key@) == Some(view_json(*v)),
            None => obj_lookup(view_members(m@), key@) is None,
        },
{
    match find_member(m, key) {
        Some(i) => Some(&m[i].1),
        None => None,
    }
}

/// Applies a template model's generation settings to an entry's members.
pub fn apply_generation(m: &mut Vec<(String, JsonValue)>, pm: &ModelPreset)
    ensures
        view_members(final(m)@) == with_generation(view_members(old(m)@), *pm),
{
    let g: Option<Vec<(String, JsonValue)>> = match lookup(m, "generationConfig") {
        Some(JsonValue::Object(g)) => {
            proof {
                lemma_view_object(*g);
            }
            Some(copy_members(g))
        },
        Some(_) => {
            return;
        },
        None => None,
    };
    let mut g = match g {
        Some(g) => g,
        None => Vec::new(),
    };
    assert(view_members(old(m)@) == view_members(m@));
    proof {
        if obj_lookup(view_members(m@), "generationConfig"@) is None {
            assert(view_members(g@) =~= Seq::empty());
        }
    }
    apply_preset_generation(&mut g, pm);
    proof {
        lemma_view_object(g);
    }
    members_insert(m, owned("generationConfig"), JsonValue::Object(g));
}

/// An object holding one text member.
fn single(key: &str, v: &str) -> (r: Vec<(String, JsonValue)>)
    ensures
        view_members(r@) == obj_insert(Seq::empty(), key@, JVal::Str(v@)),
{
    let mut r: Vec<(String, JsonValue)> = Vec::new();
    assert(view_members(r@) =~= Seq::empty());
    members_insert(&mut r, owned(key), JsonValue::Str(owned(v)));
    r
}

/// Sets a custom header in an entry's members.
pub fn apply_header(m: &mut Vec<(String, JsonValue)>, h: &str, kv: &str)
    ensures
        view_members(final(m)@) == with_header(view_members(old(m)@), h@, kv@),
{
    let g = match lookup(m, "generationConfig") {
        Some(JsonValue::Object(g)) => {
            proof {
                lemma_view_object(*g);
            }
            copy_members(g)
        },
        Some(_) => {
            return;
        },
        None => {
            let hm = single(h, kv);
            proof {
                lemma_view_object(hm);
            }
            let mut g: Vec<(String, JsonValue)> = Vec::new();
            assert(view_members(g@) =~= Seq::empty());
            members_insert(&mut g, owned("customHeaders"), JsonValue::Object(hm));
            proof {
                lemma_view_object(g);
            }
            members_insert(m, owned("generationConfig"), JsonValue::Object(g));
            return;
        },
    };
    let mut g = g;
    let hm: Option<Vec<(String, JsonValue)>> = match lookup(&g, "customHeaders") {
        Some(JsonValue::Object(hm)) => {
            proof {
                lemma_view_object(*hm);
            }
            Some(copy_members(hm))
        },
        Some(_) => None,
        None => Some(Vec::new()),
    };
    match hm {
        Some(hm) => {
            let mut hm = hm;
            proof {
                if obj_lookup(view_members(g@), "customHeaders"@) is None {
                    assert(view_members(hm@) =~= Seq::empty());
                }
            }
            members_insert(&mut hm, owned(h), JsonValue::Str(owned(kv)));
            proof {
                lemma_view_object(hm);
            }
            members_insert(&mut g, owned("customHeaders"), JsonValue::Object(hm));
        },
        None => {},
    }
    proof {
        lemma_view_object(g);
    }
    members_insert(m, owned("generationConfig"), JsonValue::Object(g));
}

/// Sets a context window size in an entry's members.
fn apply_window(m: &mut Vec<(String, JsonValue)>, c: u64)
    ensures
        view_members(final(m)@) == with_window(view_members(old(m)@), c),
{
    let mut g: Vec<(String, JsonValue)> = match lookup(m, "generationConfig") {
        Some(JsonValue::Object(g)) => {
            proof {
                lemma_view_object(*g);
            }
            copy_members(g)
        },
        Some(_) => {
            return;
        },
        None => Vec::new(),
    };
    proof {
        if obj_lookup(view_members(m@), "generationConfig"@) is None {
            assert(view_members(g@) =~= Seq::empty());
        }
    }
    members_insert(&mut g, owned("contextWindowSize"), JsonValue::Number(JsonNumber::PosInt(c)));
    proof {
        lemma_view_object(g);
    }
    members_insert(m, owned("generationConfig"), JsonValue::Object(g));
}

/// Sets the template's auth header in an entry's members, with the key the
/// table holds for the entry.
fn apply_key_header(m: &mut Vec<(String, JsonValue)>, p: &ProviderPreset, table: &Vec<(String, JsonValue)>)
    ensures
        view_members(final(m)@) == with_key_header(view_members(old(m)@), *p, view_members(table@)),
{
    let ghost t = view_members(m@);
    match &p.auth_header {
        Some(h) => {
            let lh = to_lower(h.as_str());
            proof {
                reveal_strlit("authorization");
            }
            if !str_eq(lh.as_str(), "authorization") {
                let env_key: String = match lookup(m, "envKey") {
                    Some(JsonValue::Str(k)) => owned(k.as_str()),
                    _ => owned(p.env_prefix.as_str()),
                };
                assert(env_key@ == text_or(str_of(obj_lookup(t, "envKey"@)), p.env_prefix@));
                let kv: Option<String> = match lookup(table, env_key.as_str()) {
                    Some(JsonValue::Str(v)) => Some(owned(v.as_str())),
                    _ => None,
                };
                match kv {
                    Some(kv) => {
                        if !kv.as_str().is_empty() {
                            apply_header(m, h.as_str(), kv.as_str());
                        }
                    },
                    None => {},
                }
            }
        },
        None => {},
    }
}

/// Builds the entry added for a template model missing from a group.
pub fn build_added_entry(
    template: &JsonValue,
    pm: &ModelPreset,
    p: &ProviderPreset,
    table: &Vec<(String, JsonValue)>,
) -> (r: JsonValue)
    ensures
        view_json(r) == added_entry(view_json(*template), *pm, *p, view_members(table@)),
{
    let mut m: Vec<(String, JsonValue)> = match template {
        JsonValue::Object(t) => {
            proof {
                lemma_view_object(*t);
            }
            copy_members(t)
        },
        _ => Vec::new(),
    };
    assert(view_members(m@) == members_or_empty(view_json(*template)));
    members_insert(&mut m, owned("id"), JsonValue::Str(owned(pm.id.as_str())));
    members_insert(&mut m, owned("name"), JsonValue::Str(owned(pm.name.as_str())));
    apply_generation(&mut m, pm);
    apply_key_header(&mut m, p, table);
    proof {
        lemma_view_object(m);
    }
    JsonValue::Object(m)
}

/// An entry whose `baseUrl` is the text `u`.
pub open spec fn at_url(u: Seq<char>) -> spec_fn(JVal) -> bool {
    |e: JVal| str_of(field(e, "baseUrl"@)) == Some(u)
}

/// An entry of group `url` brought in line with the template model of its
/// id: only the context window size (when the model gives one) and the
/// template's auth header are forced; everything else the user set stays.
pub open spec fn corrected(e: JVal, url: Seq<char>, p: ProviderPreset, table: Seq<(Seq<char>, JVal)>) -> JVal {
    if at_url(url)(e) && id_of(e).len() > 0 {
        match first_match(p.models@, has_model_id(id_of(e))) {
            Some(i) => {
                let m1 = match p.models@[i].context_window_size {
                    Some(c) => with_window(members_or_empty(e), c),
                    None => members_or_empty(e),
                };
                JVal::Object(with_key_header(m1, p, table))
            },
            None => e,
        }
    } else {
        e
    }
}

/// The entries with group `url` corrected.
pub open spec fn correct_all(es: Seq<JVal>, url: Seq<char>, p: ProviderPreset, table: Seq<(Seq<char>, JVal)>) -> Seq<JVal> {
    Seq::new(es.len(), |i: int| corrected(es[i], url, p, table))
}

/// Group `url` already has a model with id `id`.
pub open spec fn known(es: Seq<JVal>, url: Seq<char>, id: Seq<char>) -> bool {
    id.len() > 0 && exists|k: int| 0 <= k < es.len() && url_of(#[trigger] es[k]) == url && id_of(es[k]) == id
}

/// The entries added to group `url`: one per template model serving the
/// protocol whose id the group does not have yet.
pub open spec fn additions(
    es: Seq<JVal>,
    url: Seq<char>,
    protocol: Seq<char>,
    p: ProviderPreset,
    table: Seq<(Seq<char>, JVal)>,
    template: JVal,
    models: Seq<ModelPreset>,
) -> Seq<JVal>
    decreases models.len(),
{
    if models.len() == 0 {
        Seq::empty()
    } else {
        let prev = additions(es, url, protocol, p, table, template, models.drop_last());
        let pm = models.last();
        if !known(es, url, pm.id@) && model_supports(pm, protocol) {
            prev.push(added_entry(template, pm, p, table))
        } else {
            prev
        }
    }
}

/// One group brought in line with its template: existing entries
/// corrected, missing models added after them, and the number added.
pub open spec fn url_sync(
    es: Seq<JVal>,
    url: Seq<char>,
    protocol: Seq<char>,
    p: ProviderPreset,
    table: Seq<(Seq<char>, JVal)>,
) -> (Seq<JVal>, nat) {
    match first_match(es, at_url(url)) {
        Some(t) => {
            let adds = additions(es, url, protocol, p, table, es[t], p.models@);
            (correct_all(es, url, p, table) + adds, adds.len())
        },
        None => (es, 0),
    }
}

/// The text under `key` of a value, or empty.
fn text_member(e: &JsonValue, key: &str) -> (r: String)
    ensures
        r@ == text_or(str_of(field(view_json(*e), key@)), Seq::empty()),
{
    match e.get(key) {
        Some(x) => match x.as_str() {
            Some(t) => owned(t),
            None => String::new(),
        },
        None => String::new(),
    }
}

/// Whether an entry's `baseUrl` is the text `u`.
fn is_at_url(e: &JsonValue, u: &str) -> (r: bool)
    ensures
        r == at_url(u@)(view_json(*e)),
{
    match e.get("baseUrl") {
        Some(x) => match x.as_str() {
            Some(t) => str_eq(t, u),
            None => false,
        },
        None => false,
    }
}

/// Corrects the entries of group `url`.
fn correct_entries(es: &mut Vec<JsonValue>, url: &str, p: &ProviderPreset, table: &Vec<(String, JsonValue)>)
    ensures
        view_elements(final(es)@) == correct_all(view_elements(old(es)@), url@, *p, view_members(table@)),
{
    let ghost ev = view_elements(es@);
    let ghost tv = view_members(table@);
    let ghost n = es@.len();
    let mut i: usize = 0;
    while i < es.len()
        invariant
            i <= es@.len(),
            es@.len() == n,
            ev.len() == n,
            tv == view_members(table@),
            forall|j: int| 0 <= j < i ==> #[trigger] view_elements(es@)[j] == corrected(ev[j], url@, *p, tv),
            forall|j: int| i <= j < n ==> #[trigger] view_elements(es@)[j] == ev[j],
        decreases n - i,
    {
        assert(view_elements(es@)[i as int] == ev[i as int]);
        let ghost before = view_elements(es@);
        let changed: Option<JsonValue> = if is_at_url(&es[i], url) {
            let id = text_member(&es[i], "id");
            if !id.as_str().is_empty() {
                match find_model_preset(&p.models, id.as_str()) {
                    Some(k) => {
                        let mut m: Vec<(String, JsonValue)> = match &es[i] {
                            JsonValue::Object(m) => {
                                proof {
                                    lemma_view_object(*m);
                                }
                                copy_members(m)
                            },
                            _ => Vec::new(),
                        };
                        assert(view_members(m@) == members_or_empty(ev[i as int]));
                        match p.models[k].context_window_size {
                            Some(c) => apply_window(&mut m, c),
                            None => {},
                        }
                        apply_key_header(&mut m, p, table);
                        proof {
                            lemma_view_object(m);
                        }
                        Some(JsonValue::Object(m))
                    },
                    None => None,
                }
            } else {
                None
            }
        } else {
            None
        };
        assert(corrected(ev[i as int], url@, *p, tv) == (match changed {
            Some(v) => view_json(v),
            None => ev[i as int],
        }));
        match changed {
            Some(v) => {
                es.set(i, v);
            },
            None => {},
        }
        assert(view_elements(es@) =~= before.update(i as int, corrected(ev[i as int], url@, *p, tv)));
        i = i + 1;
    }
    assert(view_elements(es@) =~= correct_all(ev, url@, *p, tv));
}

/// Whether group `url` already has a model with id `id`.
fn known_exec(es: &Vec<JsonValue>, url: &str, id: &str) -> (r: bool)
    ensures
        r == known(view_elements(es@), url@, id@),
{
    let ghost ev = view_elements(es@);
    if id.is_empty() {
        return false;
    }
    let mut k: usize = 0;
    while k < es.len()
        invariant
            k <= es@.len(),
            ev == view_elements(es@),
            id@.len() > 0,
            forall|q: int| 0 <= q < k ==> !(url_of(#[trigger] ev[q]) == url@ && id_of(ev[q]) == id@),
        decreases es@.len() - k,
    {
        let u = text_member(&es[k], "baseUrl");
        let d = text_member(&es[k], "id");
        assert(ev[k as int] == view_json(es@[k as int]));
        if str_eq(u.as_str(), url) && str_eq(d.as_str(), id) {
            return true;
        }
        k = k + 1;
    }
    false
}

/// Brings one group in line with its template and counts the models added.
fn sync_group(
    es: &mut Vec<JsonValue>,
    url: &str,
    protocol: &str,
    p: &ProviderPreset,
    table: &Vec<(String, JsonValue)>,
) -> (r: usize)
    ensures
        view_elements(final(es)@) == url_sync(view_elements(old(es)@), url@, protocol@, *p, view_members(table@)).0,
        r as nat == url_sync(view_elements(old(es)@), url@, protocol@, *p, view_members(table@)).1,
{
    let ghost ev = view_elements(es@);
    let ghost f = at_url(url@);
    proof {
        lemma_first_match(ev, f);
    }
    let mut t: usize = 0;
    while t < es.len() && !is_at_url(&es[t], url)
        invariant
            t <= es@.len(),
            ev == view_elements(es@),
            f == at_url(url@),
            forall|q: int| 0 <= q < t ==> !f(#[trigger] ev[q]),
        decreases es@.len() - t,
    {
        assert(ev[t as int] == view_json(es@[t as int]));
        t = t + 1;
    }
    if t == es.len() {
        proof {
            lemma_first_match_none(ev, f);
        }
        return 0;
    }
    assert(ev[t as int] == view_json(es@[t as int]));
    proof {
        lemma_first_match_at(ev, f, t as int);
    }
    let template = copy_json(&es[t]);
    let ghost models = p.models@;
    let ghost tv = view_members(table@);
    let mut adds: Vec<JsonValue> = Vec::new();
    let mut k: usize = 0;
    assert(models.take(0) =~= Seq::<ModelPreset>::empty());
    assert(view_elements(adds@) =~= Seq::empty());
    while k < p.models.len()
        invariant
            k <= models.len(),
            models == p.models@,
            tv == view_members(table@),
            ev == view_elements(es@),
            view_json(template) == ev[t as int],
            view_elements(adds@) == additions(ev, url@, protocol@, *p, tv, ev[t as int], models.take(k as int)),
        decreases models.len() - k,
    {
        assert(models.take(k + 1).drop_last() == models.take(k as int));
        assert(models.take(k + 1).last() == models[k as int]);
        let pm = &p.models[k];
        if !known_exec(es, url, pm.id.as_str()) && model_preset_supports(pm, protocol) {
            let e = build_added_entry(&template, pm, p, table);
            let ghost before = view_elements(adds@);
            adds.push(e);
            assert(view_elements(adds@) =~= before.push(view_json(e)));
        }
        k = k + 1;
    }
    assert(models.take(models.len() as int) == models);
    let ghost av = view_elements(adds@);
    correct_entries(es, url, p, table);
    let ghost e1 = view_elements(es@);
    let n0 = es.len();
    let mut j: usize = 0;
    while j < adds.len()
        invariant
            j <= adds@.len(),
            av == view_elements(adds@),
            es@.len() == n0 + j,
            view_elements(es@) == e1 + av.take(j as int),
        decreases adds@.len() - j,
    {
        let ghost before = view_elements(es@);
        es.push(copy_json(&adds[j]));
        assert(view_elements(es@) =~= before.push(av[j as int]));
        assert(av.take(j + 1) =~= av.take(j as int).push(av[j as int]));
        j = j + 1;
    }
    assert(av.take(av.len() as int) == av);
    adds.len()
}

/// The distinct base URLs of entries that have both a base URL and an id,
/// in order of first appearance.
pub open spec fn sync_urls(es: Seq<JVal>) -> Seq<Seq<char>>
    decreases es.len(),
{
    if es.len() == 0 {
        Seq::empty()
    } else {
        let prev = sync_urls(es.drop_last());
        let e = es.last();
        if url_of(e).len() > 0 && id_of(e).len() > 0 && !prev.contains(url_of(e)) {
            prev.push(url_of(e))
        } else {
            prev
        }
    }
}

/// The groups of one protocol synced in turn, each with the template that
/// serves its host and the protocol, and the number of models added.
pub open spec fn urls_sync(
    es: Seq<JVal>,
    urls: Seq<Seq<char>>,
    protocol: Seq<char>,
    presets: Seq<ProviderPreset>,
    table: Seq<(Seq<char>, JVal)>,
) -> (Seq<JVal>, nat)
    decreases urls.len(),
{
    if urls.len() == 0 {
        (es, 0)
    } else {
        let (e1, c1) = urls_sync(es, urls.drop_last(), protocol, presets, table);
        let u = urls.last();
        match completion_preset(presets, host_of(u), protocol) {
            Some(i) => {
                let (e2, c2) = url_sync(e1, u, protocol, presets[i], table);
                (e2, c1 + c2)
            },
            None => (e1, c1),
        }
    }
}

/// A count held in a `usize`, stopping at the largest.
pub open spec fn sat(n: nat) -> usize {
    if n <= usize::MAX {
        n as usize
    } else {
        usize::MAX
    }
}

fn add_sat_exec(a: usize, b: usize) -> (r: usize)
    ensures
        r == add_sat(a, b),
{
    if a as u128 + b as u128 <= usize::MAX as u128 {
        a + b
    } else {
        usize::MAX
    }
}

/// Collects the group URLs of a protocol's entries.
fn collect_sync_urls(es: &Vec<JsonValue>) -> (r: Vec<String>)
    ensures
        views(r@) == sync_urls(view_elements(es@)),
{
    let ghost ev = view_elements(es@);
    let mut out: Vec<String> = Vec::new();
    assert(views(out@) =~= Seq::empty());
    let mut i: usize = 0;
    while i < es.len()
        invariant
            i <= es@.len(),
            ev == view_elements(es@),
            views(out@) == sync_urls(ev.take(i as int)),
        decreases es@.len() - i,
    {
        assert(ev.take(i + 1).drop_last() == ev.take(i as int));
        assert(ev.take(i + 1).last() == ev[i as int]);
        let u = text_member(&es[i], "baseUrl");
        let d = text_member(&es[i], "id");
        if !u.as_str().is_empty() && !d.as_str().is_empty() && !contains_string(&out, u.as_str()) {
            let ghost before = views(out@);
            out.push(u);
            assert(views(out@) =~= before.push(u@));
        }
        i = i + 1;
    }
    assert(ev.take(ev.len() as int) == ev);
    out
}

/// Whether a list of strings holds `t`.
fn contains_string(v: &Vec<String>, t: &str) -> (r: bool)
    ensures
        r == views(v@).contains(t@),
{
    let mut i: usize = 0;
    while i < v.len()
        invariant
            i <= v@.len(),
            forall|q: int| 0 <= q < i ==> v@[q]@ != t@,
        decreases v@.len() - i,
    {
        if str_eq(v[i].as_str(), t) {
            assert(views(v@)[i as int] == t@);
            return true;
        }
        i = i + 1;
    }
    assert forall|q: int| 0 <= q < views(v@).len() implies views(v@)[q] != t@ by {}
    false
}

/// Syncs every group of one protocol.
fn sync_protocol(
    es: &mut Vec<JsonValue>,
    protocol: &str,
    presets: &[ProviderPreset],
    table: &Vec<(String, JsonValue)>,
) -> (r: usize)
    ensures
        view_elements(final(es)@) == urls_sync(
            view_elements(old(es)@),
            sync_urls(view_elements(old(es)@)),
            protocol@,
            presets@,
            view_members(table@),
        ).0,
        r == sat(
            urls_sync(
                view_elements(old(es)@),
                sync_urls(view_elements(old(es)@)),
                protocol@,
                presets@,
                view_members(table@),
            ).1,
        ),
{
    let ghost ev = view_elements(es@);
    let ghost tv = view_members(table@);
    let urls = collect_sync_urls(es);
    let ghost us = views(urls@);
    let mut c: usize = 0;
    let mut i: usize = 0;
    assert(us.take(0) =~= Seq::<Seq<char>>::empty());
    while i < urls.len()
        invariant
            i <= urls@.len(),
            us == views(urls@),
            us == sync_urls(ev),
            tv == view_members(table@),
            view_elements(es@) == urls_sync(ev, us.take(i as int), protocol@, presets@, tv).0,
            c == sat(urls_sync(ev, us.take(i as int), protocol@, presets@, tv).1),
        decreases urls@.len() - i,
    {
        assert(us.take(i + 1).drop_last() == us.take(i as int));
        assert(us.take(i + 1).last() == us[i as int]);
        assert(us[i as int] == urls@[i as int]@);
        let host = extract_host(urls[i].as_str());
        match find_completion_preset(presets, host.as_str(), protocol) {
            Some(k) => {
                let n = sync_group(es, urls[i].as_str(), protocol, &presets[k], table);
                c = add_sat_exec(c, n);
            },
            None => {},
        }
        i = i + 1;
    }
    assert(us.take(us.len() as int) == us);
    c
}

/// The protocol members of `modelProviders` synced in turn, and the number
/// of models added.
pub open spec fn providers_sync(
    mp: Seq<(Seq<char>, JVal)>,
    presets: Seq<ProviderPreset>,
    table: Seq<(Seq<char>, JVal)>,
) -> (Seq<(Seq<char>, JVal)>, nat)
    decreases mp.len(),
{
    if mp.len() == 0 {
        (Seq::empty(), 0)
    } else {
        let (p, c) = providers_sync(mp.drop_last(), presets, table);
        let (k, v) = mp.last();
        match v {
            JVal::Array(es) => {
                let (es2, c2) = urls_sync(es, sync_urls(es), k, presets, table);
                (p.push((k, JVal::Array(es2))), c + c2)
            },
            _ => (p.push((k, v)), c),
        }
    }
}

/// The settings after completing and correcting their configured models
/// from the templates, and the number of models added: each group of
/// entries sharing a base URL is matched to the last template serving its
/// host and protocol; existing entries of the template's models get only
/// its context window size and auth header, and the template's missing
/// models are added after them.  Settings without a
/// `modelProviders` object are left as they are.
pub open spec fn preset_models_sync(settings: JVal, env_lines: Seq<Seq<char>>, presets: Seq<ProviderPreset>) -> (JVal, nat) {
    match settings {
        JVal::Object(sm) => match obj_lookup(sm, "modelProviders"@) {
            Some(JVal::Object(mp)) => {
                let table = key_table(Seq::empty(), env_lines, members_of(field(settings, "env"@)));
                let (mp2, c) = providers_sync(mp, presets, table);
                (JVal::Object(obj_insert(sm, "modelProviders"@, JVal::Object(mp2))), c)
            },
            _ => (settings, 0),
        },
        _ => (settings, 0),
    }
}

/// Completes the configured models from the templates (forcing only the
/// context window size and the auth header on existing ones), and returns
/// the number of models added.
pub fn sync_preset_models_to_settings(settings: &mut JsonValue, env_file: Option<&str>, presets: &[ProviderPreset]) -> (r: usize)
    ensures
        view_json(*final(settings)) == preset_models_sync(
            view_json(*old(settings)),
            env_file_lines(opt_text(env_file)),
            presets@,
        ).0,
        r == sat(preset_models_sync(view_json(*old(settings)), env_file_lines(opt_text(env_file)), presets@).1),
{
    let system: Vec<(String, String)> = Vec::new();
    assert(pairs_view(system@) =~= Seq::empty());
    let table = build_key_table(&system, env_file, settings);
    let ghost tv = view_members(table@);
    let ghost sv = view_json(*settings);
    let sm: Vec<(String, JsonValue)> = match &*settings {
        JsonValue::Object(sm) => {
            proof {
                lemma_view_object(*sm);
            }
            copy_members(sm)
        },
        _ => {
            return 0;
        },
    };
    let mut mp: Vec<(String, JsonValue)> = match lookup(&sm, "modelProviders") {
        Some(JsonValue::Object(mp)) => {
            proof {
                lemma_view_object(*mp);
            }
            copy_members(mp)
        },
        _ => {
            return 0;
        },
    };
    let ghost mv = view_members(mp@);
    let mut out: Vec<(String, JsonValue)> = Vec::new();
    assert(view_members(out@) =~= Seq::empty());
    assert(mv.take(0) =~= Seq::<(Seq<char>, JVal)>::empty());
    let mut c: usize = 0;
    let mut i: usize = 0;
    while i < mp.len()
        invariant
            i <= mp@.len(),
            mv == view_members(mp@),
            tv == view_members(table@),
            view_members(out@) == providers_sync(mv.take(i as int), presets@, tv).0,
            c == sat(providers_sync(mv.take(i as int), presets@, tv).1),
        decreases mp@.len() - i,
    {
        assert(mv.take(i + 1).drop_last() == mv.take(i as int));
        assert(mv.take(i + 1).last() == mv[i as int]);
        let key = copy_string(&mp[i].0);
        let ghost before = view_members(out@);
        match &mp[i].1 {
            JsonValue::Array(es) => {
                proof {
                    lemma_view_array(*es);
                }
                let mut es2 = copy_elements(es);
                let n = sync_protocol(&mut es2, key.as_str(), presets, &table);
                c = add_sat_exec(c, n);
                proof {
                    lemma_view_array(es2);
                }
                out.push((key, JsonValue::Array(es2)));
            },
            _ => {
                let v = copy_json(&mp[i].1);
                out.push((key, v));
            },
        }
        assert(view_members(out@) =~= before.push(view_members(out@).last()));
        i = i + 1;
    }
    assert(mv.take(mv.len() as int) == mv);
    let mut sm2 = sm;
    proof {
        lemma_view_object(out);
    }
    members_insert(&mut sm2, owned("modelProviders"), JsonValue::Object(out));
    proof {
        lemma_view_object(sm2);
    }
    *settings = JsonValue::Object(sm2);
    c
}

/// A copy of an array's elements.
fn copy_elements(a: &Vec<JsonValue>) -> (r: Vec<JsonValue>)
    ensures
        view_elements(r@) == view_elements(a@),
{
    let mut r: Vec<JsonValue> = Vec::new();
    let mut i: usize = 0;
    while i < a.len()
        invariant
            i <= a@.len(),
            view_elements(r@) == view_elements(a@).take(i as int),
        decreases a@.len() - i,
    {
        let ghost before = view_elements(r@);
        r.push(copy_json(&a[i]));
        assert(view_elements(r@) =~= before.push(view_json(a@[i as int])));
        assert(view_elements(a@).take(i + 1) =~= view_elements(a@).take(i as int).push(view_json(a@[i as int])));
        i = i + 1;
    }
    assert(view_elements(a@).take(a@.len() as int) =~= view_elements(a@));
    r
}


/// The number of model entries in the protocol arrays of `modelProviders`
/// members.
pub open spec fn entries_total(mp: Seq<(Seq<char>, JVal)>) -> nat
    decreases mp.len(),
{
    if mp.len() == 0 {
        0
    } else {
        entries_total(mp.drop_last()) + match mp.last().1 {
            JVal::Array(es) => es.len(),
            _ => 0,
        }
    }
}

/// The number of model entries configured in settings: those of the
/// protocol arrays under an object `modelProviders`.
pub open spec fn configured_models(settings: JVal) -> nat {
    match settings {
        JVal::Object(sm) => match obj_lookup(sm, "modelProviders"@) {
            Some(JVal::Object(mp)) => entries_total(mp),
            _ => 0,
        },
        _ => 0,
    }
}

proof fn lemma_urls_sync_len(
    es: Seq<JVal>,
    urls: Seq<Seq<char>>,
    protocol: Seq<char>,
    presets: Seq<ProviderPreset>,
    table: Seq<(Seq<char>, JVal)>,
)
    ensures
        urls_sync(es, urls, protocol, presets, table).0.len() == es.len() + urls_sync(es, urls, protocol, presets, table).1,
    decreases urls.len(),
{
    if urls.len() > 0 {
        lemma_urls_sync_len(es, urls.drop_last(), protocol, presets, table);
    }
}

proof fn lemma_providers_sync_total(mp: Seq<(Seq<char>, JVal)>, presets: Seq<ProviderPreset>, table: Seq<(Seq<char>, JVal)>)
    ensures
        entries_total(providers_sync(mp, presets, table).0) == entries_total(mp) + providers_sync(mp, presets, table).1,
    decreases mp.len(),
{
    if mp.len() > 0 {
        lemma_providers_sync_total(mp.drop_last(), presets, table);
        let (p, c) = providers_sync(mp.drop_last(), presets, table);
        let (k, v) = mp.last();
        match v {
            JVal::Array(es) => {
                lemma_urls_sync_len(es, sync_urls(es), k, presets, table);
                let es2 = urls_sync(es, sync_urls(es), k, presets, table).0;
                assert(p.push((k, JVal::Array(es2))).drop_last() =~= p);
            },
            _ => {
                assert(p.push((k, v)).drop_last() =~= p);
            },
        }
    }
}

/// The count that completing the configured models from the templates
/// reports is the number of model entries it added: corrections of
/// existing entries are not counted, and no entry is removed.
pub proof fn lemma_preset_sync_counts_added(settings: JVal, env_lines: Seq<Seq<char>>, presets: Seq<ProviderPreset>)
    ensures
        configured_models(preset_models_sync(settings, env_lines, presets).0) == configured_models(settings)
            + preset_models_sync(settings, env_lines, presets).1,
{
    match settings {
        JVal::Object(sm) => match obj_lookup(sm, "modelProviders"@) {
            Some(JVal::Object(mp)) => {
                let table = key_table(Seq::empty(), env_lines, members_of(field(settings, "env"@)));
                let (mp2, c) = providers_sync(mp, presets, table);
                lemma_providers_sync_total(mp, presets, table);
                lemma_lookup_after_insert(sm, "modelProviders"@, JVal::Object(mp2));
            },
            _ => {},
        },
        _ => {},
    }
}

} // verus!
