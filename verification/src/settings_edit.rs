use vstd::prelude::*;
use vstd::string::StringSliceAdditionalSpecFns;
use vstd::utf8::{decode_utf8, encode_utf8, is_char_boundary};

use crate::config::{set_by_path, set_path};
use crate::json::{
    copy_json, copy_members, find_member, lemma_view_object, members_insert, members_remove, obj_insert,
    obj_lookup, obj_remove, view_json, view_members, JVal, JsonValue,
};
use crate::mcp::replaced;
use crate::numfmt::{dec_text, u64_text};
use crate::text::{chars_of, has_prefix, owned, split_by, starts_with, string_of_range};

verus! {

/// How a stored key is shown: its first and last four bytes around `…`
/// when it is longer than eight bytes, else `••••`; a value that is not
/// text shows as `••••` too.
pub open spec fn masked(v: JVal) -> Seq<char> {
    match v {
        JVal::Str(s) => if encode_utf8(s).len() > 8 {
            decode_utf8(encode_utf8(s).take(4)) + "…"@ + decode_utf8(
                encode_utf8(s).skip(encode_utf8(s).len() - 4),
            )
        } else {
            "••••"@
        },
        _ => "••••"@,
    }
}

/// A stored key can be cut where it is shown: bytes 4 and `len - 4` start
/// characters.
pub open spec fn maskable(v: JVal) -> bool {
    match v {
        JVal::Str(s) => encode_utf8(s).len() > 8 ==> is_char_boundary(encode_utf8(s), 4) && is_char_boundary(
            encode_utf8(s),
            encode_utf8(s).len() - 4,
        ),
        _ => true,
    }
}

/// Members with every value shown masked.
pub open spec fn masked_members(es: Seq<(Seq<char>, JVal)>) -> Seq<(Seq<char>, JVal)> {
    Seq::new(es.len(), |i: int| (es[i].0, JVal::Str(masked(es[i].1))))
}

/// The settings' `env` object with its values masked; a missing `env`
/// counts as empty, one that is not an object is refused.
pub open spec fn env_masked(settings: JVal) -> Result<Seq<(Seq<char>, JVal)>, Seq<char>> {
    let env = match settings {
        JVal::Object(es) => match obj_lookup(es, "env"@) {
            Some(e) => e,
            None => JVal::Object(Seq::empty()),
        },
        _ => JVal::Object(Seq::empty()),
    };
    match env {
        JVal::Object(es) => Ok(masked_members(es)),
        _ => Err("env is not an object"@),
    }
}

/// Every text value of the settings' `env` object can be cut where it is
/// shown.
pub open spec fn env_maskable(settings: JVal) -> bool {
    match settings {
        JVal::Object(es) => match obj_lookup(es, "env"@) {
            Some(JVal::Object(m)) => forall|i: int| 0 <= i < m.len() ==> maskable(#[trigger] m[i].1),
            _ => true,
        },
        _ => true,
    }
}

fn mask_value(v: &JsonValue) -> (r: String)
    requires
        maskable(view_json(*v)),
    ensures
        r@ == masked(view_json(*v)),
{
    match v {
        JsonValue::Str(s) => {
            let t = s.as_str();
            let n = t.as_bytes().len();
            if n > 8 {
                let (head, _) = t.split_at(4);
                let (_, tail) = t.split_at(n - 4);
                proof {
                    vstd::utf8::encode_utf8_decode_utf8(head@);
                    vstd::utf8::encode_utf8_decode_utf8(tail@);
                }
                let mut out = owned(head);
                out.push_str("…");
                out.push_str(tail);
                out
            } else {
                owned("••••")
            }
        },
        _ => owned("••••"),
    }
}

/// Shows the settings' `env` object with its values masked.
pub fn mask_env_vars(settings: &JsonValue) -> (r: Result<JsonValue, String>)
    requires
        env_maskable(view_json(*settings)),
    ensures
        match r {
            Ok(v) => env_masked(view_json(*settings)) matches Ok(m) && view_json(v) == JVal::Object(m),
            Err(e) => env_masked(view_json(*settings)) matches Err(m) && e@ == m,
        },
{
    let env = match settings.get("env") {
        Some(e) => Some(e),
        None => None,
    };
    let m = match env {
        Some(JsonValue::Object(m)) => m,
        Some(_) => {
            return Err(owned("env is not an object"));
        },
        None => {
            let e: Vec<(String, JsonValue)> = Vec::new();
            proof {
                lemma_view_object(e);
            }
            assert(view_members(e@) =~= masked_members(Seq::empty()));
            return Ok(JsonValue::Object(e));
        },
    };
    proof {
        lemma_view_object(*m);
    }
    let ghost mv = view_members(m@);
    let mut out: Vec<(String, JsonValue)> = Vec::new();
    let mut i: usize = 0;
    while i < m.len()
        invariant
            i <= m@.len(),
            mv == view_members(m@),
            forall|k: int| 0 <= k < mv.len() ==> maskable(#[trigger] mv[k].1),
            view_members(out@) == masked_members(mv).take(i as int),
        decreases m@.len() - i,
    {
        assert(mv[i as int].1 == view_json(m@[i as int].1));
        let t = mask_value(&m[i].1);
        let ghost before = view_members(out@);
        out.push((owned(m[i].0.as_str()), JsonValue::Str(t)));
        assert(view_members(out@) =~= before.push((mv[i as int].0, JVal::Str(masked(mv[i as int].1)))));
        assert(masked_members(mv).take(i + 1) =~= masked_members(mv).take(i as int).push(
            (mv[i as int].0, JVal::Str(masked(mv[i as int].1))),
        ));
        i = i + 1;
    }
    assert(masked_members(mv).take(mv.len() as int) =~= masked_members(mv));
    proof {
        lemma_view_object(out);
    }
    Ok(JsonValue::Object(out))
}

/// The address of the local MCP server on a port.
pub open spec fn mcp_url(port: u16) -> Seq<char> {
    "http://localhost:"@ + dec_text(port as nat) + "/mcp"@
}

/// The settings with the MCP web search server registered at
/// `mcpServers.websearch` (or unregistered).
pub open spec fn mcp_registered(settings: JVal, port: u16, enable: bool) -> JVal {
    set_path(
        settings,
        split_by("mcpServers.websearch"@, '.'),
        if enable {
            JVal::Object(seq![("httpUrl"@, JVal::Str(mcp_url(port)))])
        } else {
            JVal::Null
        },
    )
}

/// Registers (or unregisters) the MCP web search server in the settings.
pub fn register_mcp_server(settings: &mut JsonValue, port: u16, enable: bool)
    ensures
        view_json(*final(settings)) == mcp_registered(view_json(*old(settings)), port, enable),
{
    let v = if enable {
        let mut url = owned("http://localhost:");
        url.push_str(u64_text(port as u64).as_str());
        url.push_str("/mcp");
        let m = vec![(owned("httpUrl"), JsonValue::Str(url))];
        proof {
            lemma_view_object(m);
        }
        assert(view_members(m@) =~= seq![("httpUrl"@, JVal::Str(mcp_url(port)))]);
        JsonValue::Object(m)
    } else {
        JsonValue::Null
    };
    set_by_path(settings, "mcpServers.websearch", v);
}

/// The form of the status line program's path written to the settings:
/// slashes made backslashes and an extended-length prefix `\\?\` dropped.
pub open spec fn statusline_path(p: Seq<char>) -> Seq<char> {
    let q = replaced(p, "/"@, "\\"@);
    if has_prefix(q, "\\\\?\\"@) {
        q.skip(4)
    } else {
        q
    }
}

/// The status line entry for a program path.
pub open spec fn statusline_entry(p: Seq<char>) -> JVal {
    JVal::Object(
        seq![("type"@, JVal::Str("command"@)), ("command"@, JVal::Str("\""@ + statusline_path(p) + "\" record"@))],
    )
}

/// The settings with the status line set under `ui.statusLine` (and a
/// leftover root `statusLine` removed); settings that are not an object,
/// or whose `ui` is not one, are refused.
pub open spec fn with_statusline(settings: JVal, p: Seq<char>) -> Result<JVal, Seq<char>> {
    match settings {
        JVal::Object(es) => {
            let es1 = obj_remove(es, "statusLine"@);
            match obj_lookup(es1, "ui"@) {
                Some(JVal::Object(ui)) => Ok(
                    JVal::Object(obj_insert(es1, "ui"@, JVal::Object(obj_insert(ui, "statusLine"@, statusline_entry(p))))),
                ),
                Some(_) => Err("ui field is not an object"@),
                None => Ok(
                    JVal::Object(
                        obj_insert(es1, "ui"@, JVal::Object(obj_insert(Seq::empty(), "statusLine"@, statusline_entry(p)))),
                    ),
                ),
            }
        },
        _ => Err("settings is not a JSON object"@),
    }
}

/// Writes the status line program into the settings.
pub fn inject_statusline(settings: &JsonValue, exe_path: &str) -> (r: Result<JsonValue, String>)
    ensures
        match r {
            Ok(v) => with_statusline(view_json(*settings), exe_path@) == Ok::<JVal, Seq<char>>(view_json(v)),
            Err(e) => with_statusline(view_json(*settings), exe_path@) == Err::<JVal, Seq<char>>(e@),
        },
{
    let es = match settings {
        JsonValue::Object(es) => es,
        _ => {
            return Err(owned("settings is not a JSON object"));
        },
    };
    proof {
        lemma_view_object(*es);
        reveal_strlit("/");
    }
    let mut m = copy_members(es);
    members_remove(&mut m, "statusLine");
    let q = crate::mcp::replace_text(exe_path, "/", "\\");
    let qc = chars_of(q.as_str());
    let pre = chars_of("\\\\?\\");
    proof {
        reveal_strlit("\\\\?\\");
    }
    let path = if starts_with(qc.as_slice(), pre.as_slice()) {
        string_of_range(qc.as_slice(), 4, qc.len())
    } else {
        q
    };
    assert(path@ == statusline_path(exe_path@));
    let mut cmd = owned("\"");
    cmd.push_str(path.as_str());
    cmd.push_str("\" record");
    let entry = vec![(owned("type"), JsonValue::Str(owned("command"))), (owned("command"), JsonValue::Str(cmd))];
    proof {
        lemma_view_object(entry);
    }
    assert(view_members(entry@) =~= seq![
        ("type"@, JVal::Str("command"@)),
        ("command"@, JVal::Str("\""@ + statusline_path(exe_path@) + "\" record"@)),
    ]);
    let ui: Vec<(String, JsonValue)> = match find_member(&m, "ui") {
        Some(i) => match &m[i].1 {
            JsonValue::Object(u) => {
                proof {
                    lemma_view_object(*u);
                }
                copy_members(u)
            },
            _ => {
                return Err(owned("ui field is not an object"));
            },
        },
        None => Vec::new(),
    };
    let mut ui = ui;
    proof {
        if obj_lookup(view_members(m@), "ui"@) is None {
            assert(view_members(ui@) =~= Seq::empty());
        }
    }
    members_insert(&mut ui, owned("statusLine"), JsonValue::Object(entry));
    proof {
        lemma_view_object(ui);
    }
    members_insert(&mut m, owned("ui"), JsonValue::Object(ui));
    proof {
        lemma_view_object(m);
    }
    Ok(JsonValue::Object(m))
}

/// The settings without a status line: the root `statusLine` and
/// `ui.statusLine` removed where they are.
pub open spec fn without_statusline(settings: JVal) -> JVal {
    match settings {
        JVal::Object(es) => {
            let es1 = obj_remove(es, "statusLine"@);
            match obj_lookup(es1, "ui"@) {
                Some(JVal::Object(ui)) => JVal::Object(obj_insert(es1, "ui"@, JVal::Object(obj_remove(ui, "statusLine"@)))),
                _ => JVal::Object(es1),
            }
        },
        _ => settings,
    }
}

/// Removes the status line from the settings.
pub fn remove_statusline(settings: &JsonValue) -> (r: JsonValue)
    ensures
        view_json(r) == without_statusline(view_json(*settings)),
{
    let es = match settings {
        JsonValue::Object(es) => es,
        _ => {
            return copy_json(settings);
        },
    };
    proof {
        lemma_view_object(*es);
    }
    let mut m = copy_members(es);
    members_remove(&mut m, "statusLine");
    let ui: Option<Vec<(String, JsonValue)>> = match find_member(&m, "ui") {
        Some(i) => match &m[i].1 {
            JsonValue::Object(u) => {
                proof {
                    lemma_view_object(*u);
                }
                Some(copy_members(u))
            },
            _ => None,
        },
        None => None,
    };
    match ui {
        Some(u) => {
            let mut u = u;
            members_remove(&mut u, "statusLine");
            proof {
                lemma_view_object(u);
            }
            members_insert(&mut m, owned("ui"), JsonValue::Object(u));
        },
        None => {},
    }
    proof {
        lemma_view_object(m);
    }
    JsonValue::Object(m)
}

} // verus!
