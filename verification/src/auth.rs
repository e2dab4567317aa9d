use vstd::prelude::*;
use vstd::std_specs::cmp::PartialEqSpecImpl;

use crate::text::{chars_of, copy_string, has_prefix, lowercase, owned, starts_with, str_eq,
    string_of_range, to_lower};

verus! {

/// How the proxy presents the upstream API key.
#[derive(Debug, Clone)]
pub enum AuthStrategy {
    /// OpenAI style: the key travels as `Authorization: Bearer <key>`.
    Passthrough,
    /// Anthropic style: the key travels as `x-api-key`, with `anthropic-version`.
    BearerToApiKey,
    /// Gemini style: the key travels as `x-goog-api-key`.
    BearerToGoogleKey,
    /// The key travels in the named header.
    CustomHeader(String),
}

/// Mathematical view of an [`AuthStrategy`].
pub ghost enum AuthV {
    Passthrough,
    BearerToApiKey,
    BearerToGoogleKey,
    CustomHeader(Seq<char>),
}

impl AuthStrategy {
    pub open spec fn view(&self) -> AuthV {
        match self {
            AuthStrategy::Passthrough => AuthV::Passthrough,
            AuthStrategy::BearerToApiKey => AuthV::BearerToApiKey,
            AuthStrategy::BearerToGoogleKey => AuthV::BearerToGoogleKey,
            AuthStrategy::CustomHeader(h) => AuthV::CustomHeader(h@),
        }
    }
}

impl PartialEq for AuthStrategy {
    fn eq(&self, other: &Self) -> (r: bool) {
        match self {
            AuthStrategy::Passthrough => match other {
                AuthStrategy::Passthrough => true,
                _ => false,
            },
            AuthStrategy::BearerToApiKey => match other {
                AuthStrategy::BearerToApiKey => true,
                _ => false,
            },
            AuthStrategy::BearerToGoogleKey => match other {
                AuthStrategy::BearerToGoogleKey => true,
                _ => false,
            },
            AuthStrategy::CustomHeader(a) => match other {
                AuthStrategy::CustomHeader(b) => str_eq(a.as_str(), b.as_str()),
                _ => false,
            },
        }
    }
}

impl PartialEqSpecImpl for AuthStrategy {
    open spec fn obeys_eq_spec() -> bool {
        true
    }

    open spec fn eq_spec(&self, other: &Self) -> bool {
        self@ == other@
    }
}

/// The strategy that an `authType` names: `anthropic` and `gemini` have their
/// own, every other name passes the bearer token through.
pub open spec fn strategy_for_type(t: Seq<char>) -> AuthV {
    if t == "anthropic"@ {
        AuthV::BearerToApiKey
    } else if t == "gemini"@ {
        AuthV::BearerToGoogleKey
    } else {
        AuthV::Passthrough
    }
}

/// The strategy after a provider's configured auth header is taken into
/// account: a non-empty header name overrides the base strategy.
pub open spec fn strategy_with_override(base: AuthV, auth_header: Option<Seq<char>>) -> AuthV {
    match auth_header {
        Some(h) if h.len() > 0 => AuthV::CustomHeader(h),
        _ => base,
    }
}

impl AuthStrategy {
    pub fn from_auth_type(auth_type: &str) -> (r: Self)
        ensures
            r@ == strategy_for_type(auth_type@),
    {
        if str_eq(auth_type, "anthropic") {
            AuthStrategy::BearerToApiKey
        } else if str_eq(auth_type, "gemini") {
            AuthStrategy::BearerToGoogleKey
        } else {
            AuthStrategy::Passthrough
        }
    }

    /// A provider's configured auth header takes precedence over `base`.
    pub fn with_override(base: Self, auth_header: Option<&str>) -> (r: Self)
        ensures
            r@ == strategy_with_override(
                base@,
                match auth_header {
                    Some(h) => Some(h@),
                    None => None,
                },
            ),
    {
        match auth_header {
            Some(h) if !h.is_empty() => AuthStrategy::CustomHeader(owned(h)),
            _ => base,
        }
    }
}

/// A header as a pair of character sequences.
pub type HeaderV = (Seq<char>, Seq<char>);

/// View of a header list.
pub open spec fn headers_view(h: Seq<(String, String)>) -> Seq<HeaderV> {
    Seq::new(h.len(), |i: int| (h[i].0@, h[i].1@))
}

/// The header's name matches `name` once lowercased.
pub open spec fn named(h: HeaderV, name: Seq<char>) -> bool {
    lowercase(h.0) == name
}

/// Index of the first header named `name` (case-insensitively) at or after `from`.
pub open spec fn first_named(hs: Seq<HeaderV>, name: Seq<char>, from: int) -> Option<int>
    decreases hs.len() - from,
{
    if from < 0 || from >= hs.len() {
        None
    } else if named(hs[from], name) {
        Some(from)
    } else {
        first_named(hs, name, from + 1)
    }
}

/// The key in the first `Authorization` header, when that header's value
/// begins with `Bearer `.
pub open spec fn bearer_token(hs: Seq<HeaderV>) -> Option<Seq<char>> {
    match first_named(hs, "authorization"@, 0) {
        Some(i) => if has_prefix(hs[i].1, "Bearer "@) {
            Some(hs[i].1.skip("Bearer "@.len() as int))
        } else {
            None
        },
        None => None,
    }
}

/// The inbound API key: the first `x-api-key` header when it is not empty,
/// otherwise the bearer token.
pub open spec fn api_key_of(hs: Seq<HeaderV>) -> Option<Seq<char>> {
    match first_named(hs, "x-api-key"@, 0) {
        Some(i) if hs[i].1.len() > 0 => Some(hs[i].1),
        _ => bearer_token(hs),
    }
}

/// The header carries a credential that the proxy replaces.
pub open spec fn is_credential(h: HeaderV) -> bool {
    named(h, "authorization"@) || named(h, "x-api-key"@)
}

/// The inbound headers without their credentials, in order.
pub open spec fn kept_headers(hs: Seq<HeaderV>) -> Seq<HeaderV>
    decreases hs.len(),
{
    if hs.len() == 0 {
        Seq::empty()
    } else if is_credential(hs.last()) {
        kept_headers(hs.drop_last())
    } else {
        kept_headers(hs.drop_last()).push(hs.last())
    }
}

/// The key that goes upstream: the `api_key` argument, or when that is empty
/// the inbound key (empty when there is none).
pub open spec fn effective_key(hs: Seq<HeaderV>, api_key: Seq<char>) -> Seq<char> {
    if api_key.len() == 0 {
        match api_key_of(hs) {
            Some(k) => k,
            None => Seq::empty(),
        }
    } else {
        api_key
    }
}

/// The headers that a strategy adds for a key.
pub open spec fn added_headers(strategy: AuthV, key: Seq<char>) -> Seq<HeaderV> {
    match strategy {
        AuthV::Passthrough => if key.len() > 0 {
            seq![("authorization"@, "Bearer "@ + key)]
        } else {
            Seq::empty()
        },
        AuthV::BearerToApiKey => if key.len() > 0 {
            seq![("x-api-key"@, key), ("anthropic-version"@, "2023-06-01"@)]
        } else {
            seq![("anthropic-version"@, "2023-06-01"@)]
        },
        AuthV::BearerToGoogleKey => if key.len() > 0 {
            seq![("x-goog-api-key"@, key)]
        } else {
            Seq::empty()
        },
        AuthV::CustomHeader(name) => if key.len() > 0 {
            seq![(name, key)]
        } else {
            Seq::empty()
        },
    }
}

/// What [`transform_auth_headers`] returns.
pub open spec fn transformed(hs: Seq<HeaderV>, strategy: AuthV, api_key: Seq<char>) -> Seq<HeaderV> {
    kept_headers(hs) + added_headers(strategy, effective_key(hs, api_key))
}

/// Index of the first header named `name`, searching from `from`.
fn find_named(headers: &[(String, String)], name: &str, from: usize) -> (r: Option<usize>)
    requires
        from <= headers@.len(),
    ensures
        r matches Some(i) ==> first_named(headers_view(headers@), name@, from as int) == Some(i as int)
            && i < headers@.len(),
        r is None ==> first_named(headers_view(headers@), name@, from as int) is None,
    decreases headers@.len() - from,
{
    if from == headers.len() {
        return None;
    }
    let lower = to_lower(headers[from].0.as_str());
    if str_eq(lower.as_str(), name) {
        Some(from)
    } else {
        find_named(headers, name, from + 1)
    }
}

/// The key in the first `Authorization` header, when that header's value
/// begins with `Bearer `.
pub fn extract_bearer_token(headers: &[(String, String)]) -> (r: Option<String>)
    ensures
        match r {
            Some(s) => bearer_token(headers_view(headers@)) == Some(s@),
            None => bearer_token(headers_view(headers@)) is None,
        },
{
    match find_named(headers, "authorization", 0) {
        Some(i) => {
            let v = chars_of(headers[i].1.as_str());
            let prefix = chars_of("Bearer ");
            if starts_with(v.as_slice(), prefix.as_slice()) {
                assert(v@.subrange(prefix@.len() as int, v@.len() as int) =~= v@.skip(
                    "Bearer "@.len() as int,
                ));
                Some(string_of_range(v.as_slice(), prefix.len(), v.len()))
            } else {
                None
            }
        },
        None => None,
    }
}

/// The inbound API key: `x-api-key` first, then `Authorization: Bearer`.
pub fn extract_api_key(headers: &[(String, String)]) -> (r: Option<String>)
    ensures
        match r {
            Some(s) => api_key_of(headers_view(headers@)) == Some(s@),
            None => api_key_of(headers_view(headers@)) is None,
        },
{
    if let Some(i) = find_named(headers, "x-api-key", 0) {
        if !headers[i].1.as_str().is_empty() {
            return Some(copy_string(&headers[i].1));
        }
    }
    extract_bearer_token(headers)
}

/// Rewrites the inbound headers for the upstream provider: every inbound
/// `Authorization` and `x-api-key` header is dropped, the other headers keep
/// their order, and the key is re-injected the way `strategy` asks.  A
/// non-empty `api_key` is used as the key; otherwise the inbound key is.
pub fn transform_auth_headers(
    headers: &[(String, String)],
    strategy: &AuthStrategy,
    api_key: &str,
) -> (r: Vec<(String, String)>)
    ensures
        headers_view(r@) == transformed(headers_view(headers@), strategy@, api_key@),
{
    let ghost hv = headers_view(headers@);
    let mut result: Vec<(String, String)> = Vec::new();
    let n = headers.len();
    for i in 0..n
        invariant
            n == headers@.len(),
            hv == headers_view(headers@),
            headers_view(result@) == kept_headers(hv.take(i as int)),
    {
        let lower = to_lower(headers[i].0.as_str());
        let is_auth = str_eq(lower.as_str(), "authorization");
        let is_key = str_eq(lower.as_str(), "x-api-key");
        let ghost old_result = result@;
        proof {
            assert(hv.take(i + 1).drop_last() == hv.take(i as int));
            assert(hv.take(i + 1).last() == hv[i as int]);
        }
        if !is_auth && !is_key {
            result.push((copy_string(&headers[i].0), copy_string(&headers[i].1)));
            assert(headers_view(result@) =~= headers_view(old_result).push(hv[i as int]));
        }
    }
    assert(hv.take(n as int) == hv);
    let ghost kept = headers_view(result@);
    let key: String = if api_key.is_empty() {
        match extract_api_key(headers) {
            Some(k) => k,
            None => String::new(),
        }
    } else {
        owned(api_key)
    };
    assert(key@ == effective_key(hv, api_key@));
    let ghost before = result@;
    match strategy {
        AuthStrategy::Passthrough => {
            if !key.as_str().is_empty() {
                let mut v = owned("Bearer ");
                v.push_str(key.as_str());
                result.push((owned("authorization"), v));
            }
        },
        AuthStrategy::BearerToApiKey => {
            if !key.as_str().is_empty() {
                result.push((owned("x-api-key"), key));
            }
            result.push((owned("anthropic-version"), owned("2023-06-01")));
        },
        AuthStrategy::BearerToGoogleKey => {
            if !key.as_str().is_empty() {
                result.push((owned("x-goog-api-key"), key));
            }
        },
        AuthStrategy::CustomHeader(name) => {
            if !key.as_str().is_empty() {
                result.push((copy_string(name), key));
            }
        },
    }
    assert(headers_view(result@) =~= kept + added_headers(strategy@, effective_key(hv, api_key@)));
    result
}

/// Inbound credentials never travel upstream: no header that the rewrite keeps
/// from the inbound list is an `Authorization` or `x-api-key` header, and every
/// other inbound header is kept.
pub proof fn lemma_credentials_replaced(hs: Seq<HeaderV>)
    ensures
        forall|j: int| 0 <= j < kept_headers(hs).len() ==> !is_credential(#[trigger] kept_headers(hs)[j]),
        forall|i: int| 0 <= i < hs.len() && !is_credential(#[trigger] hs[i]) ==> kept_headers(hs).contains(hs[i]),
    decreases hs.len(),
{
    if hs.len() > 0 {
        let init = hs.drop_last();
        lemma_credentials_replaced(init);
        assert forall|i: int| 0 <= i < hs.len() && !is_credential(#[trigger] hs[i]) implies kept_headers(hs).contains(hs[i]) by {
            if i < hs.len() - 1 {
                assert(init[i] == hs[i]);
                let k = choose|k: int| 0 <= k < kept_headers(init).len() && kept_headers(init)[k] == hs[i];
                if !is_credential(hs.last()) {
                    assert(kept_headers(hs)[k] == hs[i]);
                }
            } else {
                assert(kept_headers(hs).last() == hs[i]);
            }
        }
    }
}

/// A non-empty key handed to the rewrite is the one that goes upstream,
/// whatever the inbound headers carry.
pub proof fn lemma_explicit_key_wins(hs: Seq<HeaderV>, api_key: Seq<char>)
    requires
        api_key.len() > 0,
    ensures
        effective_key(hs, api_key) == api_key,
{
}

/// A non-empty inbound `x-api-key` is preferred over an `Authorization` bearer token.
pub proof fn lemma_x_api_key_preferred(hs: Seq<HeaderV>, i: int)
    requires
        first_named(hs, "x-api-key"@, 0) == Some(i),
        hs[i].1.len() > 0,
    ensures
        api_key_of(hs) == Some(hs[i].1),
{
}

} // verus!
