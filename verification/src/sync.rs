use vstd::prelude::*;

use crate::db::{Model, Provider};
use crate::presets::{ModelPreset, ProviderPreset};
use crate::upstream::{extract_host, host_of};
use crate::json::{
    copy_json, empty_object, field, find_member_index, lemma_first_key_index, lemma_view_array,
    lemma_view_object, member_or_empty, members_insert, members_of, obj_insert, obj_lookup,
    parse_json, parsed_json, str_of, str_value, view_elements, view_json, view_members, JVal,
    JsonValue,
};
use crate::seqs::{first_match, lemma_first_match, lemma_first_match_at, lemma_first_match_none};
use crate::text::{chars_of, concat, concat3, copy_string, owned, str_eq, string_of_range, trim_end_char, trim_end_char_len, views};

verus! {

/// A problem that stops a sync.
pub struct SyncError {
    pub field: String,
    pub provider_id: Option<i64>,
    pub model_id: Option<String>,
    pub message: String,
}

/// A problem worth reporting that does not stop a sync.
pub struct SyncWarning {
    pub field: String,
    pub env_key: String,
    pub message: String,
}

/// The outcome of checking providers and models before a sync.
pub struct SyncValidation {
    pub valid: bool,
    pub errors: Vec<SyncError>,
    pub warnings: Vec<SyncWarning>,
}

/// Mathematical view of a [`SyncError`].
pub ghost struct ErrV {
    pub field: Seq<char>,
    pub provider_id: Option<i64>,
    pub model_id: Option<Seq<char>>,
    pub message: Seq<char>,
}

/// Mathematical view of a [`SyncWarning`].
pub ghost struct WarnV {
    pub field: Seq<char>,
    pub env_key: Seq<char>,
    pub message: Seq<char>,
}

impl SyncError {
    pub open spec fn view(&self) -> ErrV {
        ErrV {
            field: self.field@,
            provider_id: self.provider_id,
            model_id: match self.model_id {
                Some(m) => Some(m@),
                None => None,
            },
            message: self.message@,
        }
    }
}

impl SyncWarning {
    pub open spec fn view(&self) -> WarnV {
        WarnV { field: self.field@, env_key: self.env_key@, message: self.message@ }
    }
}

/// Views of errors.
pub open spec fn errs_view(s: Seq<SyncError>) -> Seq<ErrV> {
    Seq::new(s.len(), |i: int| s[i]@)
}

/// Views of warnings.
pub open spec fn warns_view(s: Seq<SyncWarning>) -> Seq<WarnV> {
    Seq::new(s.len(), |i: int| s[i]@)
}

/// The errors an active provider with an empty env-var name or base URL
/// gets; inactive providers get none.
pub open spec fn provider_errors(p: Provider) -> Seq<ErrV> {
    if !p.is_active {
        Seq::empty()
    } else {
        (if p.api_key_env@.len() == 0 {
            seq![
                ErrV {
                    field: "api_key_env"@,
                    provider_id: Some(p.id),
                    model_id: None,
                    message: "供应商 '"@ + p.name@ + "' 的环境变量名为空"@,
                },
            ]
        } else {
            Seq::empty()
        }) + (if p.base_url@.len() == 0 {
            seq![
                ErrV {
                    field: "base_url"@,
                    provider_id: Some(p.id),
                    model_id: None,
                    message: "供应商 '"@ + p.name@ + "' 的 baseUrl 为空"@,
                },
            ]
        } else {
            Seq::empty()
        })
    }
}

/// Whether the settings' `env` object holds a non-empty text for `key`.
pub open spec fn env_has_key(env: Option<Seq<(Seq<char>, JVal)>>, key: Seq<char>) -> bool {
    match env {
        Some(es) => match str_of(obj_lookup(es, key)) {
            Some(t) => t.len() > 0,
            None => false,
        },
        None => false,
    }
}

/// The warning an active provider gets when its API key is neither in the
/// settings' `env` nor stored with it.
pub open spec fn provider_warnings(p: Provider, env: Option<Seq<(Seq<char>, JVal)>>) -> Seq<WarnV> {
    if !p.is_active || p.api_key_env@.len() == 0 || env_has_key(env, p.api_key_env@)
        || p.api_key_value is Some {
        Seq::empty()
    } else {
        seq![
            WarnV {
                field: "env"@,
                env_key: p.api_key_env@,
                message: "供应商 '"@ + p.name@ + "' 的 API Key ("@ + p.api_key_env@
                    + ") 在 settings.json 和数据库中均未配置"@,
            },
        ]
    }
}

/// The provider has the given id.
pub open spec fn has_id(id: i64) -> spec_fn(Provider) -> bool {
    |p: Provider| p.id == id
}

/// The name of the first provider with the given id, or `unknown`.
pub open spec fn provider_name_of(ps: Seq<Provider>, id: i64) -> Seq<char> {
    match first_match(ps, has_id(id)) {
        Some(i) => ps[i].name@,
        None => "unknown"@,
    }
}

/// The error a model with an empty model id gets.
pub open spec fn model_errors(m: Model, ps: Seq<Provider>) -> Seq<ErrV> {
    if m.model_id@.len() == 0 {
        seq![
            ErrV {
                field: "model_id"@,
                provider_id: Some(m.provider_id),
                model_id: Some(m.model_id@),
                message: "供应商 '"@ + provider_name_of(ps, m.provider_id) + "' 的模型 ID 为空"@,
            },
        ]
    } else {
        Seq::empty()
    }
}

/// Errors of all providers, in order.
pub open spec fn all_provider_errors(ps: Seq<Provider>) -> Seq<ErrV>
    decreases ps.len(),
{
    if ps.len() == 0 {
        Seq::empty()
    } else {
        all_provider_errors(ps.drop_last()) + provider_errors(ps.last())
    }
}

/// Warnings of all providers, in order.
pub open spec fn all_provider_warnings(ps: Seq<Provider>, env: Option<Seq<(Seq<char>, JVal)>>) -> Seq<
    WarnV,
>
    decreases ps.len(),
{
    if ps.len() == 0 {
        Seq::empty()
    } else {
        all_provider_warnings(ps.drop_last(), env) + provider_warnings(ps.last(), env)
    }
}

/// Errors of all models, in order.
pub open spec fn all_model_errors(ms: Seq<Model>, ps: Seq<Provider>) -> Seq<ErrV>
    decreases ms.len(),
{
    if ms.len() == 0 {
        Seq::empty()
    } else {
        all_model_errors(ms.drop_last(), ps) + model_errors(ms.last(), ps)
    }
}

/// The checks of a sync: provider errors then model errors, and provider
/// warnings; valid when there is no error.  A database error is the one
/// error when the lists cannot be read.
pub open spec fn validation(
    providers: Result<Vec<Provider>, String>,
    models: Result<Vec<Model>, String>,
    settings: JVal,
) -> (bool, Seq<ErrV>, Seq<WarnV>) {
    match providers {
        Err(e) => (false, seq![db_error(e@)], Seq::empty()),
        Ok(ps) => match models {
            Err(e) => (false, seq![db_error(e@)], Seq::empty()),
            Ok(ms) => {
                let errs = all_provider_errors(ps@) + all_model_errors(ms@, ps@);
                (
                    errs.len() == 0,
                    errs,
                    all_provider_warnings(ps@, members_of(field(settings, "env"@))),
                )
            },
        },
    }
}

/// The error reported when the database cannot be read.
pub open spec fn db_error(msg: Seq<char>) -> ErrV {
    ErrV { field: "database"@, provider_id: None, model_id: None, message: msg }
}

/// The error for a database failure.
fn database_error(e: &String) -> (r: SyncError)
    ensures
        r@ == db_error(e@),
{
    SyncError {
        field: owned("database"),
        provider_id: None,
        model_id: None,
        message: crate::text::copy_string(e),
    }
}

/// Checks providers and models before a sync: active providers need an
/// env-var name and a base URL, models need an id, and a provider whose key
/// is configured nowhere is worth a warning.
pub fn validate_providers(
    providers: &Result<Vec<Provider>, String>,
    models: &Result<Vec<Model>, String>,
    settings: &JsonValue,
) -> (r: SyncValidation)
    ensures
        (r.valid, errs_view(r.errors@), warns_view(r.warnings@)) == validation(
            *providers,
            *models,
            view_json(*settings),
        ),
{
    let ps = match providers {
        Ok(ps) => ps,
        Err(e) => {
            let errors = vec![database_error(e)];
            let warnings: Vec<SyncWarning> = Vec::new();
            assert(errs_view(errors@) =~= seq![db_error(e@)]);
            assert(warns_view(warnings@) =~= Seq::<WarnV>::empty());
            return SyncValidation { valid: false, errors, warnings };
        },
    };
    let ms = match models {
        Ok(ms) => ms,
        Err(e) => {
            let errors = vec![database_error(e)];
            let warnings: Vec<SyncWarning> = Vec::new();
            assert(errs_view(errors@) =~= seq![db_error(e@)]);
            assert(warns_view(warnings@) =~= Seq::<WarnV>::empty());
            return SyncValidation { valid: false, errors, warnings };
        },
    };
    let env = match settings.get("env") {
        Some(e) => e.as_object(),
        None => None,
    };
    let ghost envv = members_of(field(view_json(*settings), "env"@));
    assert(envv == match env {
        Some(m) => Some(crate::json::view_members(m@)),
        None => None::<Seq<(Seq<char>, JVal)>>,
    });
    let mut errors: Vec<SyncError> = Vec::new();
    let mut warnings: Vec<SyncWarning> = Vec::new();
    let mut i: usize = 0;
    while i < ps.len()
        invariant
            i <= ps@.len(),
            errs_view(errors@) == all_provider_errors(ps@.take(i as int)),
            warns_view(warnings@) == all_provider_warnings(ps@.take(i as int), envv),
            envv == match env {
                Some(m) => Some(crate::json::view_members(m@)),
                None => None::<Seq<(Seq<char>, JVal)>>,
            },
        decreases ps@.len() - i,
    {
        let p = &ps[i];
        assert(ps@.take(i + 1).drop_last() == ps@.take(i as int));
        assert(ps@.take(i + 1).last() == ps@[i as int]);
        let ghost e0 = errs_view(errors@);
        let ghost w0 = warns_view(warnings@);
        if p.is_active {
            let ghost mid = e0;
            if p.api_key_env.as_str().is_empty() {
                errors.push(
                    SyncError {
                        field: owned("api_key_env"),
                        provider_id: Some(p.id),
                        model_id: None,
                        message: concat3("供应商 '", p.name.as_str(), "' 的环境变量名为空"),
                    },
                );
            }
            let ghost mid2 = errs_view(errors@);
            if p.base_url.as_str().is_empty() {
                errors.push(
                    SyncError {
                        field: owned("base_url"),
                        provider_id: Some(p.id),
                        model_id: None,
                        message: concat3("供应商 '", p.name.as_str(), "' 的 baseUrl 为空"),
                    },
                );
            }
            assert(errs_view(errors@) =~= e0 + provider_errors(*p));
            if !p.api_key_env.as_str().is_empty() {
                let has_env = match env {
                    Some(m) => match crate::json::find_member(m, p.api_key_env.as_str()) {
                        Some(k) => match m[k].1.as_str() {
                            Some(t) => !t.is_empty(),
                            None => false,
                        },
                        None => false,
                    },
                    None => false,
                };
                assert(has_env == env_has_key(envv, p.api_key_env@));
                if !has_env && p.api_key_value.is_none() {
                    let head = concat3("供应商 '", p.name.as_str(), "' 的 API Key (");
                    let msg = concat3(head.as_str(), p.api_key_env.as_str(), ") 在 settings.json 和数据库中均未配置");
                    warnings.push(
                        SyncWarning {
                            field: owned("env"),
                            env_key: crate::text::copy_string(&p.api_key_env),
                            message: msg,
                        },
                    );
                }
            }
            assert(warns_view(warnings@) =~= w0 + provider_warnings(*p, envv));
        } else {
            assert(errs_view(errors@) =~= e0 + provider_errors(*p));
            assert(warns_view(warnings@) =~= w0 + provider_warnings(*p, envv));
        }
        i = i + 1;
    }
    assert(ps@.take(ps@.len() as int) == ps@);
    let ghost pe = errs_view(errors@);
    let mut j: usize = 0;
    while j < ms.len()
        invariant
            j <= ms@.len(),
            errs_view(errors@) == pe + all_model_errors(ms@.take(j as int), ps@),
        decreases ms@.len() - j,
    {
        let m = &ms[j];
        assert(ms@.take(j + 1).drop_last() == ms@.take(j as int));
        assert(ms@.take(j + 1).last() == ms@[j as int]);
        let ghost e0 = errs_view(errors@);
        if m.model_id.as_str().is_empty() {
            let mut k: usize = 0;
            let mut name = owned("unknown");
            let mut found = false;
            while k < ps.len() && !found
                invariant
                    k <= ps@.len(),
                    found ==> name@ == provider_name_of(ps@, m.provider_id),
                    !found ==> name@ == "unknown"@ && forall|q: int|
                        0 <= q < k ==> !(#[trigger] has_id(m.provider_id)(ps@[q])),
                decreases ps@.len() - k + (if found { 0int } else { 1int }),
            {
                if ps[k].id == m.provider_id {
                    proof {
                        lemma_first_match_at(ps@, has_id(m.provider_id), k as int);
                    }
                    name = crate::text::copy_string(&ps[k].name);
                    found = true;
                } else {
                    k = k + 1;
                }
            }
            proof {
                if !found {
                    lemma_first_match_none(ps@, has_id(m.provider_id));
                }
            }
            assert(name@ == provider_name_of(ps@, m.provider_id));
            errors.push(
                SyncError {
                    field: owned("model_id"),
                    provider_id: Some(m.provider_id),
                    model_id: Some(crate::text::copy_string(&m.model_id)),
                    message: concat3("供应商 '", name.as_str(), "' 的模型 ID 为空"),
                },
            );
        }
        assert(errs_view(errors@) =~= e0 + model_errors(*m, ps@));
        j = j + 1;
    }
    assert(ms@.take(ms@.len() as int) == ms@);
    let valid = errors.len() == 0;
    SyncValidation { valid, errors, warnings }
}


/// Every element is a string.
pub open spec fn all_str(a: Seq<JVal>) -> bool {
    forall|i: int| 0 <= i < a.len() ==> (#[trigger] a[i]) is Str
}

/// The protocol names of a model's `auth_type`: the strings of a JSON array
/// of strings, or the whole text as one name (older rows hold a bare name).
pub open spec fn auth_type_names(text: Seq<char>) -> Seq<Seq<char>> {
    match parsed_json(text) {
        Some(JVal::Array(a)) => if all_str(a) {
            Seq::new(a.len(), |i: int| a[i]->Str_0)
        } else {
            seq![text]
        },
        _ => seq![text],
    }
}

/// The text as the one name of a list.
fn single_name(text: &str) -> (v: Vec<String>)
    ensures
        views(v@) == seq![text@],
{
    let v = vec![owned(text)];
    assert(views(v@) =~= seq![text@]);
    v
}

/// Reads the protocol names of a model's `auth_type`.  A JSON array of
/// strings is read as the crate reads it into `Vec<String>`.
pub fn auth_type_list(text: &str) -> (r: Vec<String>)
    ensures
        views(r@) == auth_type_names(text@),
{
    let parsed = parse_json(text);
    match parsed {
        Some(JsonValue::Array(a)) => {
            proof {
                crate::json::lemma_view_array(a);
            }
            let ghost av = crate::json::view_elements(a@);
            let mut out: Vec<String> = Vec::new();
            let mut i: usize = 0;
            while i < a.len()
                invariant
                    i <= a@.len(),
                    av == crate::json::view_elements(a@),
                    parsed_json(text@) == Some(JVal::Array(av)),
                    out@.len() == i,
                    forall|k: int| 0 <= k < i ==> (#[trigger] av[k]) is Str && out@[k]@ == av[k]->Str_0,
                decreases a@.len() - i,
            {
                match &a[i] {
                    JsonValue::Str(t) => {
                        out.push(copy_string(t));
                    },
                    _ => {
                        assert(!(av[i as int] is Str));
                        assert(!all_str(av));
                        return single_name(text);
                    },
                }
                i = i + 1;
            }
            assert(all_str(av));
            assert(views(out@) =~= Seq::new(av.len(), |k: int| av[k]->Str_0));
            out
        },
        _ => single_name(text),
    }
}

/// The model can be used with protocol `at`.
pub open spec fn model_supports(m: ModelPreset, at: Seq<char>) -> bool {
    exists|j: int| 0 <= j < m.auth_type@.len() && (#[trigger] m.auth_type@[j])@ == at
}

/// Some model of the template can be used with protocol `at`.
pub open spec fn supports(p: ProviderPreset, at: Seq<char>) -> bool {
    exists|i: int| 0 <= i < p.models@.len() && model_supports(#[trigger] p.models@[i], at)
}

/// Whether a model can be used with a protocol.
pub fn model_preset_supports(m: &ModelPreset, at: &str) -> (r: bool)
    ensures
        r == model_supports(*m, at@),
{
    let mut j: usize = 0;
    while j < m.auth_type.len()
        invariant
            j <= m.auth_type@.len(),
            forall|q: int| 0 <= q < j ==> (#[trigger] m.auth_type@[q])@ != at@,
        decreases m.auth_type@.len() - j,
    {
        if str_eq(m.auth_type[j].as_str(), at) {
            return true;
        }
        j = j + 1;
    }
    false
}

/// Whether some model of a template can be used with a protocol.
pub fn preset_supports(p: &ProviderPreset, at: &str) -> (r: bool)
    ensures
        r == supports(*p, at@),
{
    let mut i: usize = 0;
    while i < p.models.len()
        invariant
            i <= p.models@.len(),
            forall|q: int| 0 <= q < i ==> !model_supports(#[trigger] p.models@[q], at@),
        decreases p.models@.len() - i,
    {
        if model_preset_supports(&p.models[i], at) {
            return true;
        }
        i = i + 1;
    }
    false
}

/// The template has the base URL `du` (trailing slashes aside) and serves
/// protocol `at`.
pub open spec fn exact_match(du: Seq<char>, at: Seq<char>) -> spec_fn(ProviderPreset) -> bool {
    |p: ProviderPreset| trim_end_char(p.base_url@, '/') == du && supports(p, at)
}

/// The template's base URL has host `h` and it serves protocol `at`.
pub open spec fn host_match(h: Seq<char>, at: Seq<char>) -> spec_fn(ProviderPreset) -> bool {
    |p: ProviderPreset| host_of(p.base_url@) == h && supports(p, at)
}

/// The template that matches a provider's base URL for a protocol: the first
/// with the same base URL, else the first with the same host.
pub open spec fn matched_preset(presets: Seq<ProviderPreset>, base_url: Seq<char>, at: Seq<char>) -> Option<int> {
    match first_match(presets, exact_match(trim_end_char(base_url, '/'), at)) {
        Some(i) => Some(i),
        None => first_match(presets, host_match(host_of(base_url), at)),
    }
}

/// A copy of `s` without trailing `/` characters.
pub fn trim_slashes(s: &str) -> (r: String)
    ensures
        r@ == trim_end_char(s@, '/'),
{
    let cs = chars_of(s);
    let n = trim_end_char_len(cs.as_slice(), '/');
    let r = string_of_range(cs.as_slice(), 0, n);
    assert(cs@.subrange(0, n as int) == cs@.take(n as int));
    r
}

/// Finds the template that matches a provider's base URL for a protocol.
pub fn find_matched_preset(presets: &[ProviderPreset], base_url: &str, at: &str) -> (r: Option<usize>)
    ensures
        match r {
            Some(i) => matched_preset(presets@, base_url@, at@) == Some(i as int) && i < presets@.len(),
            None => matched_preset(presets@, base_url@, at@) is None,
        },
{
    let du = trim_slashes(base_url);
    let ghost f = exact_match(du@, at@);
    let mut i: usize = 0;
    while i < presets.len()
        invariant
            i <= presets@.len(),
            f == exact_match(du@, at@),
            du@ == trim_end_char(base_url@, '/'),
            forall|q: int| 0 <= q < i ==> !f(#[trigger] presets@[q]),
        decreases presets@.len() - i,
    {
        let pd = trim_slashes(presets[i].base_url.as_str());
        if str_eq(pd.as_str(), du.as_str()) && preset_supports(&presets[i], at) {
            proof {
                lemma_first_match_at(presets@, f, i as int);
            }
            return Some(i);
        }
        i = i + 1;
    }
    proof {
        lemma_first_match_none(presets@, f);
    }
    let host = extract_host(base_url);
    let ghost g = host_match(host@, at@);
    let mut j: usize = 0;
    while j < presets.len()
        invariant
            j <= presets@.len(),
            g == host_match(host@, at@),
            host@ == host_of(base_url@),
            first_match(presets@, exact_match(trim_end_char(base_url@, '/'), at@)) is None,
            forall|q: int| 0 <= q < j ==> !g(#[trigger] presets@[q]),
        decreases presets@.len() - j,
    {
        let ph = extract_host(presets[j].base_url.as_str());
        if str_eq(ph.as_str(), host.as_str()) && preset_supports(&presets[j], at) {
            proof {
                lemma_first_match_at(presets@, g, j as int);
            }
            return Some(j);
        }
        j = j + 1;
    }
    proof {
        lemma_first_match_none(presets@, g);
    }
    None
}

/// The base URL written for a provider under a protocol: the matched
/// template's own base URL, or the provider's.
pub open spec fn effective_base_url(presets: Seq<ProviderPreset>, provider: Provider, at: Seq<char>) -> Seq<char> {
    match matched_preset(presets, provider.base_url@, at) {
        Some(i) => presets[i].base_url@,
        None => provider.base_url@,
    }
}

/// The base URL to write into `settings.json` for a provider: always the
/// template's original address when a template matches, first by base URL
/// and protocol, then by host and protocol.
pub fn get_effective_base_url(provider: &Provider, auth_type: &str, presets: &[ProviderPreset]) -> (r: String)
    ensures
        r@ == effective_base_url(presets@, *provider, auth_type@),
{
    match find_matched_preset(presets, provider.base_url.as_str(), auth_type) {
        Some(i) => copy_string(&presets[i].base_url),
        None => copy_string(&provider.base_url),
    }
}


/// The members of the env map built from stored keys: for each active
/// provider with an env-var name and a non-empty stored key, in order, the
/// name set to the key.
pub open spec fn env_from_providers(ps: Seq<Provider>) -> Seq<(Seq<char>, JVal)>
    decreases ps.len(),
{
    if ps.len() == 0 {
        Seq::empty()
    } else {
        let prev = env_from_providers(ps.drop_last());
        let p = ps.last();
        match p.api_key_value {
            Some(k) => if p.is_active && p.api_key_env@.len() > 0 && k@.len() > 0 {
                obj_insert(prev, p.api_key_env@, JVal::Str(k@))
            } else {
                prev
            },
            None => prev,
        }
    }
}

/// Builds the env map from the keys stored with the providers; nothing when
/// the providers cannot be read.
pub fn build_env_from_db(providers: &Result<Vec<Provider>, String>) -> (r: Vec<(String, JsonValue)>)
    ensures
        view_members(r@) == match providers {
            Ok(ps) => env_from_providers(ps@),
            Err(_) => Seq::empty(),
        },
{
    let mut env: Vec<(String, JsonValue)> = Vec::new();
    assert(view_members(env@) =~= Seq::empty());
    let ps = match providers {
        Ok(ps) => ps,
        Err(_) => return env,
    };
    let mut i: usize = 0;
    while i < ps.len()
        invariant
            i <= ps@.len(),
            view_members(env@) == env_from_providers(ps@.take(i as int)),
        decreases ps@.len() - i,
    {
        let p = &ps[i];
        assert(ps@.take(i + 1).drop_last() == ps@.take(i as int));
        assert(ps@.take(i + 1).last() == ps@[i as int]);
        if p.is_active && !p.api_key_env.as_str().is_empty() {
            if let Some(key) = &p.api_key_value {
                if !key.as_str().is_empty() {
                    members_insert(&mut env, copy_string(&p.api_key_env), str_value(key));
                }
            }
        }
        i = i + 1;
    }
    assert(ps@.take(ps@.len() as int) == ps@);
    env
}

/// The members with `h: k` added under `generationConfig.customHeaders`,
/// creating the objects on the way.
pub open spec fn with_custom_header(es: Seq<(Seq<char>, JVal)>, h: Seq<char>, k: Seq<char>) -> Seq<(Seq<char>, JVal)> {
    let gen = match obj_lookup(es, "generationConfig"@) {
        Some(g) => g,
        None => JVal::Object(Seq::empty()),
    };
    match gen {
        JVal::Object(ges) => {
            let hdrs = match obj_lookup(ges, "customHeaders"@) {
                Some(x) => x,
                None => JVal::Object(Seq::empty()),
            };
            let ges2 = match hdrs {
                JVal::Object(hes) => obj_insert(
                    ges,
                    "customHeaders"@,
                    JVal::Object(obj_insert(hes, h, JVal::Str(k))),
                ),
                _ => obj_insert(ges, "customHeaders"@, hdrs),
            };
            obj_insert(es, "generationConfig"@, JVal::Object(ges2))
        },
        _ => obj_insert(es, "generationConfig"@, gen),
    }
}

/// Adds a custom header to an entry's `generationConfig`.
pub fn add_custom_header(es: &mut Vec<(String, JsonValue)>, h: &String, k: &String)
    ensures
        view_members(final(es)@) == with_custom_header(view_members(old(es)@), h@, k@),
{
    let gen = member_or_empty(es, "generationConfig");
    match gen {
        JsonValue::Object(mut gm) => {
            proof {
                lemma_view_object(gm);
            }
            let hdrs = member_or_empty(&gm, "customHeaders");
            match hdrs {
                JsonValue::Object(mut hm) => {
                    proof {
                        lemma_view_object(hm);
                    }
                    members_insert(&mut hm, copy_string(h), str_value(k));
                    proof {
                        lemma_view_object(hm);
                    }
                    members_insert(&mut gm, owned("customHeaders"), JsonValue::Object(hm));
                },
                other => {
                    members_insert(&mut gm, owned("customHeaders"), other);
                },
            }
            proof {
                lemma_view_object(gm);
            }
            members_insert(es, owned("generationConfig"), JsonValue::Object(gm));
        },
        other => {
            members_insert(es, owned("generationConfig"), other);
        },
    }
}

/// The four fields every entry starts with.
pub open spec fn entry_base(id: Seq<char>, name: Seq<char>, env_key: Seq<char>, url: Seq<char>) -> Seq<(Seq<char>, JVal)> {
    seq![
        ("id"@, JVal::Str(id)),
        ("name"@, JVal::Str(name)),
        ("envKey"@, JVal::Str(env_key)),
        ("baseUrl"@, JVal::Str(url)),
    ]
}

/// The `generationConfig` a model's stored config contributes: a non-empty
/// JSON object, or nothing.
pub open spec fn stored_generation_config(config_json: Option<String>) -> Option<Seq<(Seq<char>, JVal)>> {
    match config_json {
        Some(cj) => match parsed_json(cj@) {
            Some(JVal::Object(g)) => if g.len() > 0 {
                Some(g)
            } else {
                None
            },
            _ => None,
        },
        None => None,
    }
}

/// The header a matched template asks for with the provider's stored key:
/// a template header name other than `authorization` (in any case) and a
/// non-empty stored key.
pub open spec fn template_header(
    presets: Seq<ProviderPreset>,
    p: Provider,
    at: Seq<char>,
) -> Option<(Seq<char>, Seq<char>)> {
    match matched_preset(presets, p.base_url@, at) {
        Some(i) => match presets[i].auth_header {
            Some(h) => if crate::text::lowercase(h@) != "authorization"@ {
                match p.api_key_value {
                    Some(k) => if k@.len() > 0 {
                        Some((h@, k@))
                    } else {
                        None
                    },
                    None => None,
                }
            } else {
                None
            },
            None => None,
        },
        None => None,
    }
}

/// The `modelProviders` entry of a model under a protocol: id, name (the
/// display name or the id), env-var name and effective base URL, the stored
/// generation config, and the template's custom auth header with the key.
pub open spec fn model_entry(m: Model, p: Provider, at: Seq<char>, presets: Seq<ProviderPreset>) -> JVal {
    let name = match m.display_name {
        Some(d) => d@,
        None => m.model_id@,
    };
    let base = entry_base(m.model_id@, name, p.api_key_env@, effective_base_url(presets, p, at));
    let with_gen = match stored_generation_config(m.config_json) {
        Some(g) => obj_insert(base, "generationConfig"@, JVal::Object(g)),
        None => base,
    };
    match template_header(presets, p, at) {
        Some((h, k)) => JVal::Object(with_custom_header(with_gen, h, k)),
        None => JVal::Object(with_gen),
    }
}

/// Builds the entry of a model under a protocol.
fn build_model_entry(m: &Model, p: &Provider, at: &str, presets: &[ProviderPreset]) -> (r: JsonValue)
    ensures
        view_json(r) == model_entry(*m, *p, at@, presets@),
{
    let matched = find_matched_preset(presets, p.base_url.as_str(), at);
    let url = match matched {
        Some(i) => copy_string(&presets[i].base_url),
        None => copy_string(&p.base_url),
    };
    let name = match &m.display_name {
        Some(d) => copy_string(d),
        None => copy_string(&m.model_id),
    };
    let mut es: Vec<(String, JsonValue)> = Vec::new();
    es.push((owned("id"), str_value(&m.model_id)));
    es.push((owned("name"), str_value(&name)));
    es.push((owned("envKey"), str_value(&p.api_key_env)));
    es.push((owned("baseUrl"), str_value(&url)));
    assert(view_members(es@) =~= entry_base(m.model_id@, name@, p.api_key_env@, url@));
    match &m.config_json {
        Some(cj) => match parse_json(cj.as_str()) {
            Some(JsonValue::Object(g)) => {
                proof {
                    lemma_view_object(g);
                }
                if g.len() > 0 {
                    members_insert(&mut es, owned("generationConfig"), JsonValue::Object(g));
                }
            },
            _ => {},
        },
        None => {},
    }
    assert(view_members(es@) == match stored_generation_config(m.config_json) {
        Some(g) => obj_insert(entry_base(m.model_id@, name@, p.api_key_env@, url@), "generationConfig"@, JVal::Object(g)),
        None => entry_base(m.model_id@, name@, p.api_key_env@, url@),
    });
    if let Some(i) = matched {
        if let Some(h) = &presets[i].auth_header {
            let lh = crate::text::to_lower(h.as_str());
            if !str_eq(lh.as_str(), "authorization") {
                if let Some(k) = &p.api_key_value {
                    if !k.as_str().is_empty() {
                        add_custom_header(&mut es, h, k);
                    }
                }
            }
        }
    }
    let r = JsonValue::Object(es);
    proof {
        lemma_view_object(es);
    }
    r
}


/// An entry of the model `id` at base URL `url`.
pub open spec fn same_entry(id: Seq<char>, url: Seq<char>) -> spec_fn(JVal) -> bool {
    |e: JVal| str_of(field(e, "id"@)) == Some(id) && str_of(field(e, "baseUrl"@)) == Some(url)
}

/// The list with `entry` in place of the first entry of the same model and
/// base URL, or with `entry` added at the end.
pub open spec fn upsert_entry(arr: Seq<JVal>, entry: JVal, id: Seq<char>, url: Seq<char>) -> Seq<JVal> {
    match first_match(arr, same_entry(id, url)) {
        Some(k) => arr.update(k, entry),
        None => arr.push(entry),
    }
}

/// The protocol groups after adding a model's entry under protocol `at`.
pub open spec fn add_to_group(
    g: Seq<(Seq<char>, JVal)>,
    m: Model,
    p: Provider,
    at: Seq<char>,
    presets: Seq<ProviderPreset>,
) -> Seq<(Seq<char>, JVal)> {
    let entry = model_entry(m, p, at, presets);
    match obj_lookup(g, at) {
        None => obj_insert(g, at, JVal::Array(seq![entry])),
        Some(JVal::Array(arr)) => obj_insert(
            g,
            at,
            JVal::Array(upsert_entry(arr, entry, m.model_id@, effective_base_url(presets, p, at))),
        ),
        Some(_) => g,
    }
}

/// The groups after adding a model under each protocol of `ts`, in order.
pub open spec fn add_to_groups(
    g: Seq<(Seq<char>, JVal)>,
    m: Model,
    p: Provider,
    ts: Seq<Seq<char>>,
    presets: Seq<ProviderPreset>,
) -> Seq<(Seq<char>, JVal)>
    decreases ts.len(),
{
    if ts.len() == 0 {
        g
    } else {
        add_to_group(add_to_groups(g, m, p, ts.drop_last(), presets), m, p, ts.last(), presets)
    }
}

/// The first provider with the model's provider id, when it is active.
pub open spec fn active_provider_of(ps: Seq<Provider>, m: Model) -> Option<Provider> {
    match first_match(ps, has_id(m.provider_id)) {
        Some(i) => if ps[i].is_active {
            Some(ps[i])
        } else {
            None
        },
        None => None,
    }
}

/// The new `modelProviders`: every model of an active provider, under each
/// of its protocols, grouped by protocol in order.
pub open spec fn provider_groups(
    ms: Seq<Model>,
    ps: Seq<Provider>,
    presets: Seq<ProviderPreset>,
) -> Seq<(Seq<char>, JVal)>
    decreases ms.len(),
{
    if ms.len() == 0 {
        Seq::empty()
    } else {
        let prev = provider_groups(ms.drop_last(), ps, presets);
        let m = ms.last();
        match active_provider_of(ps, m) {
            Some(p) => add_to_groups(prev, m, p, auth_type_names(m.auth_type@), presets),
            None => prev,
        }
    }
}

/// Position of the entry of the same model and base URL in a list.
fn find_same_entry(arr: &Vec<JsonValue>, id: &String, url: &String) -> (r: Option<usize>)
    ensures
        match r {
            Some(k) => k < arr@.len() && first_match(view_elements(arr@), same_entry(id@, url@)) == Some(k as int),
            None => first_match(view_elements(arr@), same_entry(id@, url@)) is None,
        },
{
    let ghost es = view_elements(arr@);
    let ghost f = same_entry(id@, url@);
    let mut k: usize = 0;
    while k < arr.len()
        invariant
            k <= arr@.len(),
            es == view_elements(arr@),
            f == same_entry(id@, url@),
            forall|q: int| 0 <= q < k ==> !f(#[trigger] es[q]),
        decreases arr@.len() - k,
    {
        let e = &arr[k];
        let same_id = match e.get("id") {
            Some(x) => match x.as_str() {
                Some(t) => str_eq(t, id.as_str()),
                None => false,
            },
            None => false,
        };
        let same_url = match e.get("baseUrl") {
            Some(x) => match x.as_str() {
                Some(t) => str_eq(t, url.as_str()),
                None => false,
            },
            None => false,
        };
        assert(es[k as int] == view_json(arr@[k as int]));
        if same_id && same_url {
            proof {
                crate::seqs::lemma_first_match_at(es, f, k as int);
            }
            return Some(k);
        }
        k = k + 1;
    }
    proof {
        crate::seqs::lemma_first_match_none(es, f);
    }
    None
}

/// Adds a model's entry to its protocol's group.
fn add_entry(g: &mut Vec<(String, JsonValue)>, m: &Model, p: &Provider, at: &String, presets: &[ProviderPreset])
    ensures
        view_members(final(g)@) == add_to_group(view_members(old(g)@), *m, *p, at@, presets@),
{
    let entry = build_model_entry(m, p, at.as_str(), presets);
    let url = get_effective_base_url(p, at.as_str(), presets);
    proof {
        lemma_first_key_index(view_members(g@), at@);
    }
    match find_member_index(g, at.as_str()) {
        None => {
            let arr = vec![entry];
            proof {
                lemma_view_array(arr);
                assert(view_elements(arr@) =~= seq![view_json(entry)]);
            }
            members_insert(g, copy_string(at), JsonValue::Array(arr));
        },
        Some(i) => {
            let list = copy_json(&g[i].1);
            match list {
                JsonValue::Array(mut arr) => {
                    proof {
                        lemma_view_array(arr);
                    }
                    let ghost before = view_elements(arr@);
                    let ghost ev = view_json(entry);
                    match find_same_entry(&arr, &m.model_id, &url) {
                        Some(k) => {
                            let _ = arr.remove(k);
                            arr.insert(k, entry);
                            assert(view_elements(arr@) =~= before.update(k as int, ev));
                        },
                        None => {
                            arr.push(entry);
                            assert(view_elements(arr@) =~= before.push(ev));
                        },
                    }
                    proof {
                        lemma_view_array(arr);
                    }
                    members_insert(g, copy_string(at), JsonValue::Array(arr));
                },
                _ => {},
            }
        },
    }
}

/// Position of the first provider with the given id.
fn find_provider(ps: &Vec<Provider>, id: i64) -> (r: Option<usize>)
    ensures
        match r {
            Some(i) => i < ps@.len() && first_match(ps@, has_id(id)) == Some(i as int),
            None => first_match(ps@, has_id(id)) is None,
        },
{
    let mut k: usize = 0;
    while k < ps.len()
        invariant
            k <= ps@.len(),
            forall|q: int| 0 <= q < k ==> !(#[trigger] has_id(id)(ps@[q])),
        decreases ps@.len() - k,
    {
        if ps[k].id == id {
            proof {
                lemma_first_match_at(ps@, has_id(id), k as int);
            }
            return Some(k);
        }
        k = k + 1;
    }
    proof {
        lemma_first_match_none(ps@, has_id(id));
    }
    None
}

/// Builds the new `modelProviders` groups.
pub fn build_provider_groups(ms: &Vec<Model>, ps: &Vec<Provider>, presets: &[ProviderPreset]) -> (r: Vec<(String, JsonValue)>)
    ensures
        view_members(r@) == provider_groups(ms@, ps@, presets@),
{
    let mut g: Vec<(String, JsonValue)> = Vec::new();
    assert(view_members(g@) =~= Seq::empty());
    let mut i: usize = 0;
    while i < ms.len()
        invariant
            i <= ms@.len(),
            view_members(g@) == provider_groups(ms@.take(i as int), ps@, presets@),
        decreases ms@.len() - i,
    {
        let m = &ms[i];
        assert(ms@.take(i + 1).drop_last() == ms@.take(i as int));
        assert(ms@.take(i + 1).last() == ms@[i as int]);
        match find_provider(ps, m.provider_id) {
            Some(pi) => {
                let p = &ps[pi];
                if p.is_active {
                    let types = auth_type_list(m.auth_type.as_str());
                    let ghost ts = views(types@);
                    let ghost g0 = view_members(g@);
                    let mut j: usize = 0;
                    assert(ts.take(0) =~= Seq::<Seq<char>>::empty());
                    while j < types.len()
                        invariant
                            j <= ts.len(),
                            ts == views(types@),
                            view_members(g@) == add_to_groups(g0, *m, *p, ts.take(j as int), presets@),
                        decreases ts.len() - j,
                    {
                        assert(ts.take(j + 1).drop_last() == ts.take(j as int));
                        assert(ts.take(j + 1).last() == types@[j as int]@);
                        add_entry(&mut g, m, p, &types[j], presets);
                        j = j + 1;
                    }
                    assert(ts.take(ts.len() as int) == ts);
                }
            },
            None => {},
        }
        i = i + 1;
    }
    assert(ms@.take(ms@.len() as int) == ms@);
    g
}


/// The outcome of a sync: the checks, and the new settings when they pass.
pub struct SyncResult {
    pub validation: SyncValidation,
    pub settings: Option<JsonValue>,
}

/// The members of a settings document (`null` counts as an empty object).
pub open spec fn settings_members(settings: JVal) -> Seq<(Seq<char>, JVal)> {
    match settings {
        JVal::Object(es) => es,
        _ => Seq::empty(),
    }
}

/// `base` with each member of `add` set in turn.
pub open spec fn merge_members(base: Seq<(Seq<char>, JVal)>, add: Seq<(Seq<char>, JVal)>) -> Seq<(Seq<char>, JVal)>
    decreases add.len(),
{
    if add.len() == 0 {
        base
    } else {
        obj_insert(merge_members(base, add.drop_last()), add.last().0, add.last().1)
    }
}

/// The settings after a sync: `modelProviders` replaced by the groups built
/// from the database, and the stored keys merged into `env` (created when
/// missing); every other part is kept.
pub open spec fn synced_settings(
    settings: JVal,
    ps: Seq<Provider>,
    ms: Seq<Model>,
    presets: Seq<ProviderPreset>,
) -> JVal {
    let es1 = obj_insert(
        settings_members(settings),
        "modelProviders"@,
        JVal::Object(provider_groups(ms, ps, presets)),
    );
    let env = env_from_providers(ps);
    if env.len() == 0 {
        JVal::Object(es1)
    } else {
        let cur = match obj_lookup(es1, "env"@) {
            Some(e) => e,
            None => JVal::Object(Seq::empty()),
        };
        match cur {
            JVal::Object(ees) => JVal::Object(obj_insert(es1, "env"@, JVal::Object(merge_members(ees, env)))),
            _ => JVal::Object(obj_insert(es1, "env"@, cur)),
        }
    }
}

/// Sets each member of `add` in `m`, in order.
fn merge_into(m: &mut Vec<(String, JsonValue)>, add: &Vec<(String, JsonValue)>)
    ensures
        view_members(final(m)@) == merge_members(view_members(old(m)@), view_members(add@)),
{
    let ghost base = view_members(m@);
    let ghost av = view_members(add@);
    let mut i: usize = 0;
    assert(av.take(0) =~= Seq::<(Seq<char>, JVal)>::empty());
    while i < add.len()
        invariant
            i <= add@.len(),
            av == view_members(add@),
            view_members(m@) == merge_members(base, av.take(i as int)),
        decreases add@.len() - i,
    {
        assert(av.take(i + 1).drop_last() == av.take(i as int));
        assert(av.take(i + 1).last() == av[i as int]);
        members_insert(m, copy_string(&add[i].0), copy_json(&add[i].1));
        i = i + 1;
    }
    assert(av.take(av.len() as int) == av);
}

/// Synchronises the providers and models of the database into the settings
/// document: when the checks pass, `modelProviders` is rebuilt (grouped by
/// protocol, one entry per model and base URL) and the stored keys are
/// merged into `env`.  The settings must be an object (or `null`, taken as
/// an empty object), as indexing it by key requires.
pub fn sync_providers_to_settings(
    settings: JsonValue,
    providers: &Result<Vec<Provider>, String>,
    models: &Result<Vec<Model>, String>,
    presets: &[ProviderPreset],
) -> (r: SyncResult)
    requires
        view_json(settings) is Object || view_json(settings) is Null,
    ensures
        (r.validation.valid, errs_view(r.validation.errors@), warns_view(r.validation.warnings@))
            == validation(*providers, *models, view_json(settings)),
        r.validation.valid ==> match (providers, models) {
            (Ok(ps), Ok(ms)) => r.settings matches Some(s) && view_json(s) == synced_settings(
                view_json(settings),
                ps@,
                ms@,
                presets@,
            ),
            _ => false,
        },
        !r.validation.valid ==> r.settings is None,
{
    let validation = validate_providers(providers, models, &settings);
    if !validation.valid {
        return SyncResult { validation, settings: None };
    }
    let (ps, ms) = match (providers, models) {
        (Ok(ps), Ok(ms)) => (ps, ms),
        _ => {
            return SyncResult { validation, settings: None };
        },
    };
    let groups = build_provider_groups(ms, ps, presets);
    let mut es: Vec<(String, JsonValue)> = match settings {
        JsonValue::Object(m) => {
            proof {
                lemma_view_object(m);
            }
            m
        },
        _ => {
            let m: Vec<(String, JsonValue)> = Vec::new();
            assert(view_members(m@) =~= Seq::empty());
            m
        },
    };
    proof {
        lemma_view_object(groups);
    }
    members_insert(&mut es, owned("modelProviders"), JsonValue::Object(groups));
    let db_env = build_env_from_db(providers);
    if db_env.len() > 0 {
        let cur = member_or_empty(&es, "env");
        match cur {
            JsonValue::Object(mut em) => {
                proof {
                    lemma_view_object(em);
                }
                merge_into(&mut em, &db_env);
                proof {
                    lemma_view_object(em);
                }
                members_insert(&mut es, owned("env"), JsonValue::Object(em));
            },
            other => {
                members_insert(&mut es, owned("env"), other);
            },
        }
    }
    proof {
        lemma_view_object(es);
    }
    SyncResult { validation, settings: Some(JsonValue::Object(es)) }
}

/// The model id and base URL of an entry, when it has both as texts.
pub open spec fn entry_key(e: JVal) -> Option<(Seq<char>, Seq<char>)> {
    match (str_of(field(e, "id"@)), str_of(field(e, "baseUrl"@))) {
        (Some(i), Some(u)) => Some((i, u)),
        _ => None,
    }
}

/// No two entries of a list are the same model under the same base URL.
pub open spec fn unique_entries(arr: Seq<JVal>) -> bool {
    forall|i: int, j: int|
        0 <= i < j < arr.len() ==> !(#[trigger] entry_key(arr[i]) is Some && entry_key(arr[i]) == #[trigger] entry_key(
            arr[j],
        ))
}

/// Upserting an entry keeps a list free of repeated models under one base
/// URL: the entry replaces the one with its model and base URL, or is the
/// first such.
pub proof fn lemma_upsert_keeps_unique(arr: Seq<JVal>, entry: JVal, id: Seq<char>, url: Seq<char>)
    requires
        unique_entries(arr),
        same_entry(id, url)(entry),
    ensures
        unique_entries(upsert_entry(arr, entry, id, url)),
{
    lemma_first_match(arr, same_entry(id, url));
    let r = upsert_entry(arr, entry, id, url);
    assert(entry_key(entry) == Some((id, url)));
    match first_match(arr, same_entry(id, url)) {
        Some(k) => {
            assert(entry_key(arr[k]) == Some((id, url)));
            assert forall|i: int, j: int|
                0 <= i < j < r.len() implies !(#[trigger] entry_key(r[i]) is Some && entry_key(r[i]) == #[trigger] entry_key(
                r[j],
            )) by {
                assert(entry_key(r[i]) == entry_key(arr[i]));
                assert(entry_key(r[j]) == entry_key(arr[j]));
            }
        },
        None => {
            assert forall|i: int, j: int|
                0 <= i < j < r.len() implies !(#[trigger] entry_key(r[i]) is Some && entry_key(r[i]) == #[trigger] entry_key(
                r[j],
            )) by {
                if j == arr.len() {
                    assert(r[i] == arr[i]);
                    assert(!same_entry(id, url)(arr[i]));
                } else {
                    assert(r[i] == arr[i] && r[j] == arr[j]);
                }
            }
        },
    }
}


/// A model whose provider is inactive (every provider with its provider id
/// is inactive, or there is none) adds nothing to `modelProviders`: the
/// groups with it are the groups without it.
pub proof fn lemma_inactive_provider_model_skipped(
    ms: Seq<Model>,
    m: Model,
    ps: Seq<Provider>,
    presets: Seq<ProviderPreset>,
)
    requires
        forall|i: int| 0 <= i < ps.len() && (#[trigger] ps[i]).id == m.provider_id ==> !ps[i].is_active,
    ensures
        provider_groups(ms.push(m), ps, presets) == provider_groups(ms, ps, presets),
{
    lemma_first_match(ps, has_id(m.provider_id));
    assert(ms.push(m).drop_last() =~= ms);
    assert(active_provider_of(ps, m) is None);
}

/// When no provider is active, the synced `modelProviders` has no entry,
/// whatever the models.
pub proof fn lemma_no_active_provider_no_groups(ms: Seq<Model>, ps: Seq<Provider>, presets: Seq<ProviderPreset>)
    requires
        forall|i: int| 0 <= i < ps.len() ==> !(#[trigger] ps[i]).is_active,
    ensures
        provider_groups(ms, ps, presets) == Seq::<(Seq<char>, JVal)>::empty(),
    decreases ms.len(),
{
    if ms.len() > 0 {
        lemma_no_active_provider_no_groups(ms.drop_last(), ps, presets);
        lemma_inactive_provider_model_skipped(ms.drop_last(), ms.last(), ps, presets);
        assert(ms.drop_last().push(ms.last()) =~= ms);
    }
}

} // verus!
