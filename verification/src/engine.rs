use vstd::prelude::*;

use crate::auth::{
    headers_view, strategy_for_type, transform_auth_headers, transformed, AuthStrategy, AuthV,
    HeaderV,
};
use crate::db::ModelRoute;
use crate::json::{
    bool_of, field, json_error_text, lemma_view_array, lemma_view_object, parse_json,
    parse_json_or_error, parsed_json, str_of, view_elements, view_json, view_members, JNum, JVal,
    JsonNumber, JsonValue,
};
use crate::numfmt::{i64_text, int_text};
use crate::sync::{auth_type_list, auth_type_names};
use crate::text::{concat, concat3, contains, copy_string, owned, str_contains, str_eq, views};
use crate::upstream::{build_upstream_url, upstream_url};

verus! {

/// An error the proxy answers with: an HTTP status and a message.
pub struct ProxyErrorResponse {
    pub status: u16,
    pub message: String,
}

/// The protocol an endpoint prefers: Anthropic for `/messages`, OpenAI
/// otherwise.
pub open spec fn preferred_protocol(endpoint: Seq<char>) -> Seq<char> {
    if contains(endpoint, "/messages"@) {
        "anthropic"@
    } else {
        "openai"@
    }
}

/// The protocol picked from a model's list: the endpoint's preferred one
/// when listed, else the first, else `openai`.
pub open spec fn picked_protocol(types: Seq<Seq<char>>, endpoint: Seq<char>) -> Seq<char> {
    if types.contains(preferred_protocol(endpoint)) {
        preferred_protocol(endpoint)
    } else if types.len() > 0 {
        types[0]
    } else {
        "openai"@
    }
}

/// Picks the auth strategy for a request: among the protocols of the
/// model's `auth_type` (a JSON array, or one bare name), the one the
/// endpoint prefers when listed, else the first.
pub fn pick_auth_strategy(auth_type_json: &str, endpoint: &str) -> (r: AuthStrategy)
    ensures
        r@ == strategy_for_type(picked_protocol(auth_type_names(auth_type_json@), endpoint@)),
{
    let types = auth_type_list(auth_type_json);
    let ghost ts = views(types@);
    let preferred = if str_contains(endpoint, "/messages") {
        owned("anthropic")
    } else {
        owned("openai")
    };
    assert(preferred@ == preferred_protocol(endpoint@));
    let mut i: usize = 0;
    while i < types.len()
        invariant
            i <= types@.len(),
            ts == views(types@),
            ts == auth_type_names(auth_type_json@),
            preferred@ == preferred_protocol(endpoint@),
            forall|q: int| 0 <= q < i ==> ts[q] != preferred@,
        decreases types@.len() - i,
    {
        if str_eq(types[i].as_str(), preferred.as_str()) {
            assert(ts[i as int] == preferred@);
            assert(ts.contains(preferred@));
            return AuthStrategy::from_auth_type(preferred.as_str());
        }
        i = i + 1;
    }
    assert(!ts.contains(preferred@));
    if types.len() > 0 {
        AuthStrategy::from_auth_type(types[0].as_str())
    } else {
        AuthStrategy::from_auth_type("openai")
    }
}

/// A rough token count for a body size: one token per four bytes, rounded
/// up.
pub fn estimate_tokens(bytes: usize) -> (r: u64)
    requires
        bytes + 3 <= u64::MAX,
    ensures
        r == (bytes + 3) / 4,
{
    (bytes as u64 + 3) / 4
}

/// The compression columns of a request log row: whether the body was
/// compressed, the original token estimate, and the tokens saved (never
/// below zero).
pub fn compression_columns(info: Option<(u64, u64)>) -> (r: (bool, u64, u64))
    ensures
        r == match info {
            Some((orig, compressed)) => (
                true,
                orig,
                if orig >= compressed {
                    (orig - compressed) as u64
                } else {
                    0
                },
            ),
            None => (false, 0u64, 0u64),
        },
{
    match info {
        Some((orig, compressed)) => (true, orig, orig.saturating_sub(compressed)),
        None => (false, 0, 0),
    }
}

/// Whether a request body asks for a stream: `stream` is `true`.
pub open spec fn wants_stream(body: Seq<char>) -> bool {
    match parsed_json(body) {
        Some(j) => bool_of(field(j, "stream"@)) == Some(true),
        None => false,
    }
}

/// Whether a request body asks for a streamed response.
pub fn is_stream_request(body: &str) -> (r: bool)
    ensures
        r == wants_stream(body@),
{
    match parse_json(body) {
        Some(v) => match v.get("stream") {
            Some(s) => match s.as_bool() {
                Some(b) => b,
                None => false,
            },
            None => false,
        },
        None => false,
    }
}

/// The model a request body names, or the error the proxy answers with:
/// 400 for a body that is not JSON or has no string `model`.
pub open spec fn requested_model_spec(body: Seq<char>) -> Result<Seq<char>, (u16, Seq<char>)> {
    match parsed_json(body) {
        None => Err((400u16, "invalid JSON: "@ + json_error_text(body))),
        Some(j) => match str_of(field(j, "model"@)) {
            Some(m) => Ok(m),
            None => Err((400u16, "missing 'model' field"@)),
        },
    }
}

/// The view of a proxy result.
pub open spec fn err_view(e: ProxyErrorResponse) -> (u16, Seq<char>) {
    (e.status, e.message@)
}

/// Reads the model a request body names.
pub fn requested_model(body: &str) -> (r: Result<String, ProxyErrorResponse>)
    ensures
        match r {
            Ok(m) => requested_model_spec(body@) == Ok::<Seq<char>, (u16, Seq<char>)>(m@),
            Err(e) => requested_model_spec(body@) == Err::<Seq<char>, (u16, Seq<char>)>(err_view(e)),
        },
{
    match parse_json_or_error(body) {
        Err(msg) => Err(ProxyErrorResponse { status: 400, message: concat("invalid JSON: ", msg.as_str()) }),
        Ok(v) => match v.get("model") {
            Some(m) => match m.as_str() {
                Some(t) => Ok(owned(t)),
                None => Err(ProxyErrorResponse { status: 400, message: owned("missing 'model' field") }),
            },
            None => Err(ProxyErrorResponse { status: 400, message: owned("missing 'model' field") }),
        },
    }
}

/// The route for a model from what the lookup found: 500 with the lookup's
/// message when it failed, 404 when nothing serves the model.
pub fn resolve_route(model_id: &str, found: Result<Option<ModelRoute>, String>) -> (r: Result<ModelRoute, ProxyErrorResponse>)
    ensures
        match found {
            Ok(Some(route)) => r == Ok::<ModelRoute, ProxyErrorResponse>(route),
            Ok(None) => r matches Err(e) && err_view(e) == (404u16, "no route for model '"@ + model_id@ + "'"@),
            Err(m) => r matches Err(e) && err_view(e) == (500u16, m@),
        },
{
    match found {
        Ok(Some(route)) => Ok(route),
        Ok(None) => Err(ProxyErrorResponse { status: 404, message: concat3("no route for model '", model_id, "'") }),
        Err(m) => Err(ProxyErrorResponse { status: 500, message: m }),
    }
}

/// The body of an error answer: `{"error": {"message", "type":
/// "proxy_error", "code"}}`.
pub open spec fn error_body_spec(status: u16, message: Seq<char>) -> JVal {
    JVal::Object(
        seq![
            (
                "error"@,
                JVal::Object(
                    seq![
                        ("message"@, JVal::Str(message)),
                        ("type"@, JVal::Str("proxy_error"@)),
                        ("code"@, JVal::Number(JNum::PosInt(status as u64))),
                    ],
                ),
            ),
        ],
    )
}

impl ProxyErrorResponse {
    /// The JSON body the error is answered with.
    pub fn error_body(&self) -> (r: JsonValue)
        ensures
            view_json(r) == error_body_spec(self.status, self.message@),
    {
        let inner = vec![
            (owned("message"), JsonValue::Str(copy_string(&self.message))),
            (owned("type"), JsonValue::Str(owned("proxy_error"))),
            (owned("code"), JsonValue::Number(JsonNumber::PosInt(self.status as u64))),
        ];
        proof {
            lemma_view_object(inner);
        }
        let outer = vec![(owned("error"), JsonValue::Object(inner))];
        proof {
            lemma_view_object(outer);
            assert(view_members(inner@) =~= seq![
                ("message"@, JVal::Str(self.message@)),
                ("type"@, JVal::Str("proxy_error"@)),
                ("code"@, JVal::Number(JNum::PosInt(self.status as u64))),
            ]);
            assert(view_members(outer@) =~= seq![("error"@, view_json(JsonValue::Object(inner)))]);
        }
        JsonValue::Object(outer)
    }
}

/// The headers a client request carries before the auth rewrite: JSON
/// content and the key as a bearer token.
pub open spec fn client_headers_spec(api_key: Seq<char>) -> Seq<HeaderV> {
    seq![
        ("content-type"@, "application/json"@),
        ("authorization"@, "Bearer "@ + api_key),
    ]
}

/// The headers a client request carries before the auth rewrite.
pub fn client_headers(api_key: &str) -> (r: Vec<(String, String)>)
    ensures
        headers_view(r@) == client_headers_spec(api_key@),
{
    let r = vec![
        (owned("content-type"), owned("application/json")),
        (owned("authorization"), concat("Bearer ", api_key)),
    ];
    assert(headers_view(r@) =~= client_headers_spec(api_key@));
    r
}

/// What the proxy sends upstream for a request.
pub struct ForwardPlan {
    pub url: String,
    pub headers: Vec<(String, String)>,
    pub is_stream: bool,
}

/// Plans the upstream request for a routed model: the upstream URL, the
/// client headers rewritten for the auth strategy the endpoint picks, and
/// whether the body asks for a stream.
pub fn plan_forward(route: &ModelRoute, endpoint: &str, body: &str, api_key: &str) -> (r: ForwardPlan)
    ensures
        r.url@ == upstream_url(route.base_url@, endpoint@),
        headers_view(r.headers@) == transformed(
            client_headers_spec(api_key@),
            strategy_for_type(picked_protocol(auth_type_names(route.auth_type@), endpoint@)),
            api_key@,
        ),
        r.is_stream == wants_stream(body@),
{
    let strategy = pick_auth_strategy(route.auth_type.as_str(), endpoint);
    let base = client_headers(api_key);
    let headers = transform_auth_headers(base.as_slice(), &strategy, api_key);
    ForwardPlan {
        url: build_upstream_url(route.base_url.as_str(), endpoint),
        headers,
        is_stream: is_stream_request(body),
    }
}

/// The health answer of the proxy.
pub fn health_body() -> (r: JsonValue)
    ensures
        view_json(r) == JVal::Object(
            seq![("status"@, JVal::Str("ok"@)), ("service"@, JVal::Str("agentbox-proxy"@))],
        ),
{
    let m = vec![
        (owned("status"), JsonValue::Str(owned("ok"))),
        (owned("service"), JsonValue::Str(owned("agentbox-proxy"))),
    ];
    proof {
        lemma_view_object(m);
        assert(view_members(m@) =~= seq![("status"@, JVal::Str("ok"@)), ("service"@, JVal::Str("agentbox-proxy"@))]);
    }
    JsonValue::Object(m)
}

/// The model list entry of a model: `{id, object: "model", owned_by:
/// "provider-<id>"}`.
pub open spec fn model_list_entry(model_id: Seq<char>, provider_id: i64) -> JVal {
    JVal::Object(
        seq![
            ("id"@, JVal::Str(model_id)),
            ("object"@, JVal::Str("model"@)),
            ("owned_by"@, JVal::Str("provider-"@ + int_text(provider_id as int))),
        ],
    )
}

/// The answer to a model list request for `(model id, provider id)` pairs.
pub fn models_list_body(models: &Vec<(String, i64)>) -> (r: JsonValue)
    ensures
        view_json(r) == JVal::Object(
            seq![
                ("object"@, JVal::Str("list"@)),
                ("data"@, JVal::Array(Seq::new(models@.len(), |i: int| model_list_entry(models@[i].0@, models@[i].1)))),
            ],
        ),
{
    let mut data: Vec<JsonValue> = Vec::new();
    let mut i: usize = 0;
    while i < models.len()
        invariant
            i <= models@.len(),
            data@.len() == i,
            forall|k: int| 0 <= k < i ==> view_json(#[trigger] data@[k]) == model_list_entry(models@[k].0@, models@[k].1),
        decreases models@.len() - i,
    {
        let entry = vec![
            (owned("id"), JsonValue::Str(copy_string(&models[i].0))),
            (owned("object"), JsonValue::Str(owned("model"))),
            (owned("owned_by"), JsonValue::Str(concat("provider-", i64_text(models[i].1).as_str()))),
        ];
        proof {
            lemma_view_object(entry);
            assert(view_members(entry@) =~= seq![
                ("id"@, JVal::Str(models@[i as int].0@)),
                ("object"@, JVal::Str("model"@)),
                ("owned_by"@, JVal::Str("provider-"@ + int_text(models@[i as int].1 as int))),
            ]);
        }
        data.push(JsonValue::Object(entry));
        i = i + 1;
    }
    proof {
        lemma_view_array(data);
        assert(view_elements(data@) =~= Seq::new(models@.len(), |i: int| model_list_entry(models@[i].0@, models@[i].1)));
    }
    let m = vec![(owned("object"), JsonValue::Str(owned("list"))), (owned("data"), JsonValue::Array(data))];
    proof {
        lemma_view_object(m);
        assert(view_members(m@) =~= seq![
            ("object"@, JVal::Str("list"@)),
            ("data"@, JVal::Array(Seq::new(models@.len(), |i: int| model_list_entry(models@[i].0@, models@[i].1)))),
        ]);
    }
    JsonValue::Object(m)
}

/// Whether the local proxy answers, on which port.
pub struct ProxyStatus {
    pub running: bool,
    pub port: u16,
    pub uptime_hint: String,
}

/// The proxy's status for a connection attempt: running or not, with the
/// matching hint.
pub fn proxy_status(running: bool, port: u16) -> (r: ProxyStatus)
    ensures
        r.running == running,
        r.port == port,
        r.uptime_hint@ == if running {
            "运行中"@
        } else {
            "未启动"@
        },
{
    let hint = if running {
        crate::text::owned("运行中")
    } else {
        crate::text::owned("未启动")
    };
    ProxyStatus { running, port, uptime_hint: hint }
}

} // verus!
