use vstd::prelude::*;

use crate::json::{
    json_error_text, parse_json_or_error, parsed_json, copy_json, empty_object, find_member_index, first_key_index, lemma_first_key_index, lemma_view_object,
    members_insert, members_remove, obj_insert, obj_lookup, obj_remove, view_json, view_members,
    JVal, JsonValue,
};
use crate::text::{copy_string, split_by, split_char, views};

verus! {

/// Where a `//` comment that starts before `j` ends: the next `\n` at or
/// after `j`, or the end.
pub open spec fn line_comment_end(cs: Seq<char>, j: int) -> int
    decreases cs.len() - j,
{
    if j < cs.len() && cs[j] != '\n' {
        line_comment_end(cs, j + 1)
    } else {
        j
    }
}

/// Where the scan for the `*/` of a block comment stops, starting at `j`:
/// at the `*` of the first `*/`, or at the last character when there is none.
pub open spec fn block_comment_scan(cs: Seq<char>, j: int) -> int
    decreases cs.len() - j,
{
    if j + 1 < cs.len() && !(cs[j] == '*' && cs[j + 1] == '/') {
        block_comment_scan(cs, j + 1)
    } else {
        j
    }
}

pub proof fn lemma_line_comment_end(cs: Seq<char>, j: int)
    ensures
        line_comment_end(cs, j) >= j,
        j <= cs.len() ==> line_comment_end(cs, j) <= cs.len(),
    decreases cs.len() - j,
{
    if j < cs.len() && cs[j] != '\n' {
        lemma_line_comment_end(cs, j + 1);
    }
}

pub proof fn lemma_block_comment_scan(cs: Seq<char>, j: int)
    ensures
        block_comment_scan(cs, j) >= j,
    decreases cs.len() - j,
{
    if j + 1 < cs.len() && !(cs[j] == '*' && cs[j + 1] == '/') {
        lemma_block_comment_scan(cs, j + 1);
    }
}

/// The text from position `i` on with JSONC comments removed, `in_str`
/// telling whether `i` lies inside a string literal.  Inside strings every
/// character is kept, a backslash keeping the next one too; outside, `//`
/// removes up to the end of the line (the newline stays) and `/* */`
/// removes the whole comment.
pub open spec fn strip_from(cs: Seq<char>, i: int, in_str: bool) -> Seq<char>
    decreases cs.len() - i,
{
    if i < 0 || i >= cs.len() {
        Seq::empty()
    } else if in_str {
        if cs[i] == '\\' && i + 1 < cs.len() {
            seq![cs[i], cs[i + 1]] + strip_from(cs, i + 2, true)
        } else if cs[i] == '"' {
            seq![cs[i]] + strip_from(cs, i + 1, false)
        } else {
            seq![cs[i]] + strip_from(cs, i + 1, true)
        }
    } else if cs[i] == '"' {
        seq![cs[i]] + strip_from(cs, i + 1, true)
    } else if cs[i] == '/' && i + 1 < cs.len() && cs[i + 1] == '/' {
        proof {
            lemma_line_comment_end(cs, i + 2);
        }
        strip_from(cs, line_comment_end(cs, i + 2), false)
    } else if cs[i] == '/' && i + 1 < cs.len() && cs[i + 1] == '*' {
        proof {
            lemma_block_comment_scan(cs, i + 2);
        }
        let n = block_comment_scan(cs, i + 2) + 2;
        strip_from(cs, if n > cs.len() { cs.len() as int } else { n }, false)
    } else {
        seq![cs[i]] + strip_from(cs, i + 1, false)
    }
}

/// A JSONC text with its comments removed.
pub open spec fn strip_jsonc(s: Seq<char>) -> Seq<char> {
    strip_from(s, 0, false)
}

/// Removes `//` and `/* */` comments from JSONC text, leaving string
/// literals untouched.
pub fn strip_jsonc_comments(input: &str) -> (r: String)
    ensures
        r@ == strip_jsonc(input@),
{
    let chars = crate::text::chars_of(input);
    let ghost cs = input@;
    let len = chars.len();
    let mut result = String::new();
    let mut i: usize = 0;
    let mut in_string = false;
    while i < len
        invariant
            chars@ == cs,
            len == cs.len(),
            result@ + strip_from(cs, i as int, in_string) == strip_jsonc(cs),
        decreases len - i,
    {
        let ghost before = result@;
        if in_string {
            result.push(chars[i]);
            if chars[i] == '\\' && i + 1 < len {
                i = i + 1;
                result.push(chars[i]);
                assert(result@ == before + seq![cs[i - 1], cs[i as int]]);
                assert(before + seq![cs[i - 1], cs[i as int]] + strip_from(cs, i + 1, true) == before
                    + (seq![cs[i - 1], cs[i as int]] + strip_from(cs, i + 1, true)));
            } else if chars[i] == '"' {
                in_string = false;
                assert(result@ + strip_from(cs, i + 1, false) == before + (seq![cs[i as int]]
                    + strip_from(cs, i + 1, false)));
            } else {
                assert(result@ + strip_from(cs, i + 1, true) == before + (seq![cs[i as int]]
                    + strip_from(cs, i + 1, true)));
            }
            i = i + 1;
        } else if chars[i] == '"' {
            in_string = true;
            result.push(chars[i]);
            assert(result@ + strip_from(cs, i + 1, true) == before + (seq![cs[i as int]]
                + strip_from(cs, i + 1, true)));
            i = i + 1;
        } else if chars[i] == '/' && i + 1 < len && chars[i + 1] == '/' {
            let mut j = i + 2;
            while j < len && chars[j] != '\n'
                invariant
                    chars@ == cs,
                    len == cs.len(),
                    i + 2 <= j <= len,
                    line_comment_end(cs, i + 2) == line_comment_end(cs, j as int),
                decreases len - j,
            {
                j = j + 1;
            }
            i = j;
        } else if chars[i] == '/' && i + 1 < len && chars[i + 1] == '*' {
            let mut j = i + 2;
            while j < len && j + 1 < len && !(chars[j] == '*' && chars[j + 1] == '/')
                invariant
                    chars@ == cs,
                    len == cs.len(),
                    i + 2 <= j,
                    j <= len,
                    block_comment_scan(cs, i + 2) == block_comment_scan(cs, j as int),
                decreases len + 1 - j,
            {
                j = j + 1;
            }
            if j >= len - 1 {
                i = len;
            } else {
                i = j + 2;
            }
        } else {
            result.push(chars[i]);
            assert(result@ + strip_from(cs, i + 1, false) == before + (seq![cs[i as int]]
                + strip_from(cs, i + 1, false)));
            i = i + 1;
        }
    }
    assert(result@ + Seq::<char>::empty() == result@);
    result
}

/// Reads a settings text: its comments removed, then parsed as JSON; a
/// text that does not parse is answered with the parser's message.
pub fn parse_settings(content: &str) -> (r: Result<JsonValue, String>)
    ensures
        match r {
            Ok(v) => parsed_json(strip_jsonc(content@)) == Some(view_json(v)),
            Err(m) => parsed_json(strip_jsonc(content@)) is None && m@ == json_error_text(strip_jsonc(content@)),
        },
{
    let stripped = strip_jsonc_comments(content);
    parse_json_or_error(stripped.as_str())
}

/// Without a `/` there is nothing to remove.
proof fn lemma_strip_from_no_slash(cs: Seq<char>, i: int, in_str: bool)
    requires
        0 <= i <= cs.len(),
        forall|k: int| 0 <= k < cs.len() ==> cs[k] != '/',
    ensures
        strip_from(cs, i, in_str) == cs.skip(i),
    decreases cs.len() - i,
{
    if i < cs.len() {
        if in_str && cs[i] == '\\' && i + 1 < cs.len() {
            lemma_strip_from_no_slash(cs, i + 2, true);
            assert(cs.skip(i) == seq![cs[i], cs[i + 1]] + cs.skip(i + 2));
        } else if in_str && cs[i] == '"' {
            lemma_strip_from_no_slash(cs, i + 1, false);
            assert(cs.skip(i) == seq![cs[i]] + cs.skip(i + 1));
        } else if in_str {
            lemma_strip_from_no_slash(cs, i + 1, true);
            assert(cs.skip(i) == seq![cs[i]] + cs.skip(i + 1));
        } else if cs[i] == '"' {
            lemma_strip_from_no_slash(cs, i + 1, true);
            assert(cs.skip(i) == seq![cs[i]] + cs.skip(i + 1));
        } else {
            lemma_strip_from_no_slash(cs, i + 1, false);
            assert(cs.skip(i) == seq![cs[i]] + cs.skip(i + 1));
        }
    } else {
        assert(cs.skip(i) == Seq::<char>::empty());
    }
}

/// Text without any `/` has no comment and comes back unchanged.
pub proof fn lemma_strip_without_slash_is_identity(s: Seq<char>)
    requires
        forall|k: int| 0 <= k < s.len() ==> s[k] != '/',
    ensures
        strip_jsonc(s) == s,
{
    lemma_strip_from_no_slash(s, 0, false);
    assert(s.skip(0) == s);
}


/// The document with the value at the dotted path `parts` set to `v`:
/// missing or non-object steps on the way become empty objects, and a
/// non-object node is left as it is.  A `null` value removes the last key
/// instead, and leaves the document as it is where a step of the path is
/// missing or not an object.
pub open spec fn set_path(node: JVal, parts: Seq<Seq<char>>, v: JVal) -> JVal
    decreases parts.len(),
{
    if parts.len() == 0 {
        node
    } else {
        match node {
            JVal::Object(es) => if parts.len() == 1 {
                if v == JVal::Null {
                    JVal::Object(obj_remove(es, parts[0]))
                } else {
                    JVal::Object(obj_insert(es, parts[0], v))
                }
            } else {
                match obj_lookup(es, parts[0]) {
                    Some(JVal::Object(c)) => JVal::Object(
                        obj_insert(es, parts[0], set_path(JVal::Object(c), parts.drop_first(), v)),
                    ),
                    _ => if v == JVal::Null {
                        node
                    } else {
                        JVal::Object(obj_insert(es, parts[0], set_path(JVal::Object(Seq::empty()), parts.drop_first(), v)))
                    },
                }
            },
            _ => node,
        }
    }
}

/// Sets the value at `parts[k..]` under `node`.
fn set_by_path_inner(node: JsonValue, parts: &Vec<String>, k: usize, value: JsonValue) -> (r: JsonValue)
    requires
        k <= parts@.len(),
    ensures
        view_json(r) == set_path(view_json(node), views(parts@).skip(k as int), view_json(value)),
    decreases parts@.len() - k,
{
    let ghost ps = views(parts@).skip(k as int);
    if k >= parts.len() {
        assert(ps.len() == 0);
        return node;
    }
    assert(ps[0] == parts@[k as int]@);
    assert(ps.drop_first() == views(parts@).skip(k + 1));
    match node {
        JsonValue::Object(mut m) => {
            let ghost es = view_members(m@);
            proof {
                lemma_view_object(m);
                lemma_first_key_index(es, ps[0]);
            }
            if k + 1 == parts.len() {
                let is_null = match value {
                    JsonValue::Null => true,
                    _ => false,
                };
                if is_null {
                    members_remove(&mut m, parts[k].as_str());
                } else {
                    members_insert(&mut m, copy_string(&parts[k]), value);
                }
                proof {
                    lemma_view_object(m);
                }
                JsonValue::Object(m)
            } else {
                let is_null = match value {
                    JsonValue::Null => true,
                    _ => false,
                };
                let child: Option<JsonValue> = match find_member_index(&m, parts[k].as_str()) {
                    Some(i) => match &m[i].1 {
                        JsonValue::Object(_) => Some(copy_json(&m[i].1)),
                        _ => None,
                    },
                    None => None,
                };
                let child = match child {
                    Some(c) => c,
                    None => {
                        if is_null {
                            proof {
                                lemma_view_object(m);
                            }
                            return JsonValue::Object(m);
                        }
                        empty_object()
                    },
                };
                let nc = set_by_path_inner(child, parts, k + 1, value);
                members_insert(&mut m, copy_string(&parts[k]), nc);
                proof {
                    lemma_view_object(m);
                }
                JsonValue::Object(m)
            }
        },
        _ => node,
    }
}

/// Sets the value at a dotted path such as `ui.statusLine.type`; a `null`
/// value removes the last key.
pub fn set_by_path(root: &mut JsonValue, path: &str, value: JsonValue)
    ensures
        view_json(*final(root)) == set_path(view_json(*old(root)), split_by(path@, '.'), view_json(value)),
{
    let parts = split_char(path, '.');
    let mut old_root = JsonValue::Null;
    std::mem::swap(&mut old_root, root);
    assert(views(parts@).skip(0) == views(parts@));
    *root = set_by_path_inner(old_root, &parts, 0, value);
}

/// The value at a dotted path, following object members.
pub open spec fn get_path(node: JVal, parts: Seq<Seq<char>>) -> Option<JVal>
    decreases parts.len(),
{
    if parts.len() == 0 {
        Some(node)
    } else {
        match node {
            JVal::Object(es) => match obj_lookup(es, parts[0]) {
                Some(c) => get_path(c, parts.drop_first()),
                None => None,
            },
            _ => None,
        }
    }
}

/// A lookup finds the first member of the name.
proof fn lemma_lookup_at(es: Seq<(Seq<char>, JVal)>, key: Seq<char>, i: int)
    requires
        0 <= i < es.len(),
        es[i].0 == key,
        forall|j: int| 0 <= j < i ==> es[j].0 != key,
    ensures
        obj_lookup(es, key) == Some(es[i].1),
        first_key_index(es, key) == Some(i),
    decreases i,
{
    if i > 0 {
        assert forall|j: int| 0 <= j < i - 1 implies es.drop_first()[j].0 != key by {
            assert(es.drop_first()[j] == es[j + 1]);
        }
        lemma_lookup_at(es.drop_first(), key, i - 1);
    }
}

/// After setting a member, looking it up gives the new value.
pub proof fn lemma_lookup_after_insert(es: Seq<(Seq<char>, JVal)>, key: Seq<char>, v: JVal)
    ensures
        obj_lookup(obj_insert(es, key, v), key) == Some(v),
{
    lemma_first_key_index(es, key);
    match first_key_index(es, key) {
        Some(i) => {
            let es2 = es.update(i, (key, v));
            lemma_lookup_at(es2, key, i);
        },
        None => {
            let es2 = es.push((key, v));
            lemma_lookup_at(es2, key, es.len() as int);
        },
    }
}

/// After removing a member, looking it up finds nothing, when names are
/// unique.
pub proof fn lemma_lookup_after_remove(es: Seq<(Seq<char>, JVal)>, key: Seq<char>)
    requires
        forall|a: int, b: int| 0 <= a < b < es.len() ==> es[a].0 != es[b].0,
    ensures
        obj_lookup(obj_remove(es, key), key) is None,
{
    lemma_first_key_index(es, key);
    let es2 = obj_remove(es, key);
    assert forall|j: int| 0 <= j < es2.len() implies es2[j].0 != key by {
        match first_key_index(es, key) {
            Some(i) => {
                if j < i {
                } else {
                    assert(es2[j] == es[j + 1]);
                }
            },
            None => {},
        }
    }
    lemma_first_key_index(es2, key);
}

/// Writing a non-null value at a dotted path of an object and reading the
/// same path back gives the value written.
pub proof fn lemma_set_then_get(node: JVal, parts: Seq<Seq<char>>, v: JVal)
    requires
        node is Object,
        parts.len() >= 1,
        v != JVal::Null,
    ensures
        get_path(set_path(node, parts, v), parts) == Some(v),
    decreases parts.len(),
{
    let es = node->Object_0;
    if parts.len() == 1 {
        lemma_lookup_after_insert(es, parts[0], v);
        assert(parts.drop_first().len() == 0);
        assert(get_path(v, parts.drop_first()) == Some(v));
        assert(set_path(node, parts, v) == JVal::Object(obj_insert(es, parts[0], v)));
    } else {
        let child = match obj_lookup(es, parts[0]) {
            Some(JVal::Object(c)) => JVal::Object(c),
            _ => JVal::Object(Seq::empty()),
        };
        assert(set_path(node, parts, v) == JVal::Object(obj_insert(es, parts[0], set_path(child, parts.drop_first(), v))));
        lemma_set_then_get(child, parts.drop_first(), v);
        let nc = set_path(child, parts.drop_first(), v);
        lemma_lookup_after_insert(es, parts[0], nc);
        assert(set_path(node, parts, v) == JVal::Object(obj_insert(es, parts[0], nc)));
    }
}

/// Writing `null` at a dotted path that the document does not have leaves
/// the document as it is.
pub proof fn lemma_null_on_missing_path(node: JVal, parts: Seq<Seq<char>>)
    requires
        get_path(node, parts) is None,
    ensures
        set_path(node, parts, JVal::Null) == node,
    decreases parts.len(),
{
    if parts.len() > 0 {
        match node {
            JVal::Object(es) => {
                lemma_first_key_index(es, parts[0]);
                if parts.len() == 1 {
                    assert(get_path(node, parts) == match obj_lookup(es, parts[0]) {
                        Some(c) => get_path(c, parts.drop_first()),
                        None => None,
                    });
                    assert(obj_lookup(es, parts[0]) is None);
                    assert(obj_remove(es, parts[0]) == es);
                }
                if parts.len() > 1 {
                    match obj_lookup(es, parts[0]) {
                        Some(JVal::Object(c)) => {
                            assert(get_path(node, parts) == get_path(JVal::Object(c), parts.drop_first()));
                            lemma_null_on_missing_path(JVal::Object(c), parts.drop_first());
                            let i = first_key_index(es, parts[0])->0;
                            assert(es.update(i, (parts[0], JVal::Object(c))) =~= es);
                        },
                        _ => {},
                    }
                }
            },
            _ => {},
        }
    }
}

} // verus!
