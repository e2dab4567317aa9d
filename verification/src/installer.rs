use vstd::prelude::*;

use crate::json::{field, str_of, view_elements, view_json, JVal, JsonValue};
use crate::numfmt::{i64_text, int_text};
use crate::text::{chars_of, concat, owned, split_by, split_char, trim, trim_string, views};

verus! {

/// A command-line tool found on the machine.
pub struct ToolVersion {
    pub path: String,
    pub version: String,
}

/// An ASCII decimal digit.
pub open spec fn is_digit(c: char) -> bool {
    '0' <= c && c <= '9'
}

/// A non-empty run of ASCII digits.
pub open spec fn is_number(p: Seq<char>) -> bool {
    p.len() > 0 && forall|i: int| 0 <= i < p.len() ==> is_digit(#[trigger] p[i])
}

/// A release tag of the form `v` digits `.` digits `.` digits.
pub open spec fn stable_tag(tag: Seq<char>) -> bool {
    tag.len() > 0 && tag[0] == 'v' && split_by(tag.skip(1), '.').len() == 3 && forall|i: int|
        0 <= i < 3 ==> is_number(#[trigger] split_by(tag.skip(1), '.')[i])
}

fn is_number_exec(p: &str) -> (r: bool)
    ensures
        r == is_number(p@),
{
    let cs = chars_of(p);
    if cs.len() == 0 {
        return false;
    }
    let mut i: usize = 0;
    while i < cs.len()
        invariant
            i <= cs@.len(),
            cs@ == p@,
            forall|k: int| 0 <= k < i ==> is_digit(#[trigger] cs@[k]),
        decreases cs@.len() - i,
    {
        if !('0' <= cs[i] && cs[i] <= '9') {
            return false;
        }
        i = i + 1;
    }
    true
}

/// Whether a release tag names a stable version: `v` followed by three
/// dot-separated numbers.
pub fn is_stable_tag(tag: &str) -> (r: bool)
    ensures
        r == stable_tag(tag@),
{
    let cs = chars_of(tag);
    if cs.len() == 0 || cs[0] != 'v' {
        return false;
    }
    let rest = crate::text::string_of_range(cs.as_slice(), 1, cs.len());
    assert(rest@ == tag@.skip(1));
    let parts = split_char(rest.as_str(), '.');
    if parts.len() != 3 {
        return false;
    }
    let ghost pv = views(parts@);
    assert(pv[0] == parts@[0]@ && pv[1] == parts@[1]@ && pv[2] == parts@[2]@);
    let ok = is_number_exec(parts[0].as_str()) && is_number_exec(parts[1].as_str()) && is_number_exec(
        parts[2].as_str(),
    );
    proof {
        if ok {
            assert forall|i: int| 0 <= i < 3 implies is_number(#[trigger] split_by(tag@.skip(1), '.')[i]) by {
                if i == 0 {
                } else if i == 1 {
                } else {
                }
            }
        }
    }
    ok
}

/// The tag of the first release whose tag names a stable version.
pub open spec fn first_stable(releases: Seq<JVal>) -> Option<Seq<char>>
    decreases releases.len(),
{
    if releases.len() == 0 {
        None
    } else {
        match str_of(field(releases[0], "tag_name"@)) {
            Some(t) => if stable_tag(t) {
                Some(t)
            } else {
                first_stable(releases.drop_first())
            },
            None => first_stable(releases.drop_first()),
        }
    }
}

/// Picks the newest stable release tag from a release list, newest first.
pub fn latest_stable_tag(releases: &Vec<JsonValue>) -> (r: Result<String, String>)
    ensures
        match r {
            Ok(t) => first_stable(view_elements(releases@)) == Some(t@),
            Err(e) => first_stable(view_elements(releases@)) is None && e@ == "no stable release found"@,
        },
{
    let ghost rv = view_elements(releases@);
    let mut i: usize = 0;
    assert(rv.skip(0) == rv);
    while i < releases.len()
        invariant
            i <= releases@.len(),
            rv == view_elements(releases@),
            first_stable(rv) == first_stable(rv.skip(i as int)),
        decreases releases@.len() - i,
    {
        assert(rv.skip(i as int)[0] == view_json(releases@[i as int]));
        assert(rv.skip(i as int).drop_first() == rv.skip(i + 1));
        match releases[i].get("tag_name") {
            Some(v) => match v.as_str() {
                Some(t) => {
                    if is_stable_tag(t) {
                        return Ok(owned(t));
                    }
                },
                None => {},
            },
            None => {},
        }
        i = i + 1;
    }
    Err(owned("no stable release found"))
}

/// The version a tool reports: its trimmed output, when the tool ran
/// successfully and printed something.
pub open spec fn reported_version(success: bool, output: Seq<char>) -> Option<Seq<char>> {
    if success && trim(output).len() > 0 {
        Some(trim(output))
    } else {
        None
    }
}

/// Reads a tool's version from how it ran.
pub fn tool_version(cmd: &str, success: bool, stdout: &str) -> (r: Option<ToolVersion>)
    ensures
        match r {
            Some(t) => reported_version(success, stdout@) == Some(t.version@) && t.path@ == cmd@,
            None => reported_version(success, stdout@) is None,
        },
{
    if !success {
        return None;
    }
    let v = trim_string(stdout);
    if v.as_str().is_empty() {
        return None;
    }
    Some(ToolVersion { path: owned(cmd), version: v })
}

/// The arguments of an npm install or update of the CLI, run through the
/// Windows command interpreter, with a registry when one is given.
pub open spec fn npm_args(action: Seq<char>, mirror: Option<Seq<char>>) -> Seq<Seq<char>> {
    let base = seq!["/C"@, "npm"@, action, "-g"@, "@qwen-code/qwen-code@latest"@];
    match mirror {
        Some(m) => base.push("--registry="@ + m),
        None => base,
    }
}

/// Builds the arguments of an npm install or update of the CLI.
pub fn npm_lifecycle_args(action: &str, mirror: &Option<String>) -> (r: Vec<String>)
    ensures
        views(r@) == npm_args(
            action@,
            match mirror {
                Some(m) => Some(m@),
                None => None,
            },
        ),
{
    let mut args = vec![owned("/C"), owned("npm"), owned(action), owned("-g"), owned("@qwen-code/qwen-code@latest")];
    let ghost base = views(args@);
    match mirror {
        Some(m) => {
            args.push(concat("--registry=", m.as_str()));
            assert(views(args@) =~= base.push("--registry="@ + m@));
        },
        None => {},
    }
    assert(base =~= seq!["/C"@, "npm"@, action@, "-g"@, "@qwen-code/qwen-code@latest"@]);
    args
}

/// How an npm run is reported: success, or the exit code as `Some(n)` or
/// `None`.
pub open spec fn npm_report(action: Seq<char>, success: bool, code: Option<i32>) -> Result<Seq<char>, Seq<char>> {
    if success {
        Ok("npm "@ + action + " completed successfully"@)
    } else {
        Err(
            "npm "@ + action + " failed with exit code: "@ + match code {
                Some(c) => "Some("@ + int_text(c as int) + ")"@,
                None => "None"@,
            },
        )
    }
}

/// Reports how an npm run ended.
pub fn npm_outcome(action: &str, success: bool, code: Option<i32>) -> (r: Result<String, String>)
    ensures
        match r {
            Ok(t) => npm_report(action@, success, code) == Ok::<Seq<char>, Seq<char>>(t@),
            Err(e) => npm_report(action@, success, code) == Err::<Seq<char>, Seq<char>>(e@),
        },
{
    let mut s = owned("npm ");
    s.push_str(action);
    if success {
        s.push_str(" completed successfully");
        assert(s@ =~= "npm "@ + action@ + " completed successfully"@);
        assert(npm_report(action@, success, code) == Ok::<Seq<char>, Seq<char>>(s@));
        return Ok(s);
    }
    s.push_str(" failed with exit code: ");
    match code {
        Some(c) => {
            s.push_str("Some(");
            s.push_str(i64_text(c as i64).as_str());
            s.push_str(")");
            assert(s@ =~= "npm "@ + action@ + " failed with exit code: "@ + ("Some("@ + int_text(c as int) + ")"@));
        },
        None => {
            s.push_str("None");
            assert(s@ =~= "npm "@ + action@ + " failed with exit code: "@ + "None"@);
        },
    }
    assert(npm_report(action@, success, code) == Err::<Seq<char>, Seq<char>>(s@));
    Err(s)
}

} // verus!
