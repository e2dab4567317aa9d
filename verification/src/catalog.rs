use vstd::prelude::*;
use vstd::string::StringSliceAdditionalSpecFns;
use vstd::utf8::encode_utf8;

use crate::config::lemma_lookup_after_insert;
use crate::paths::opt_str_view;
use crate::json::{
    copy_members, field, field_of, field_str, lemma_view_array, lemma_view_object, members_insert, members_of,
    obj_insert, obj_lookup, opt_view, parse_json, parsed_json, str_of, view_elements,
    view_json, view_members, JVal, JsonValue,
};
use crate::seqs::{first_match, lemma_first_match};
use crate::text::{
    chars_of, concat, copy_string, find_from, first_occurrence, has_prefix, lemma_first_occurrence_bound,
    last_index_of, lemma_last_index_bound, lines_of, owned, rfind_char, split_lines, starts_with, string_of_range, trim, trim_end_char, trim_end_char_len,
    trim_string, views,
};

verus! {

/// The three dashes that open and close a front matter block.
pub open spec fn dashes() -> Seq<char> {
    seq!['-', '-', '-']
}

/// The front matter of a document: what lies between a leading `---` and
/// the next `---`.
pub open spec fn front_matter(c: Seq<char>) -> Option<Seq<char>> {
    if has_prefix(c, dashes()) {
        match first_occurrence(c.skip(3), dashes(), 0) {
            Some(e) => Some(c.skip(3).take(e)),
            None => None,
        }
    } else {
        None
    }
}

/// `s` with every leading occurrence of `c` removed.
pub open spec fn trim_start_char(s: Seq<char>, c: char) -> Seq<char>
    decreases s.len(),
{
    if s.len() > 0 && s[0] == c {
        trim_start_char(s.drop_first(), c)
    } else {
        s
    }
}

/// A front matter value: trimmed of white space, then of double quotes on
/// both ends.
pub open spec fn clean_value(v: Seq<char>) -> Seq<char> {
    trim_end_char(trim_start_char(trim(v), '"'), '"')
}

fn clean_value_exec(v: &str) -> (r: String)
    ensures
        r@ == clean_value(v@),
{
    let t = trim_string(v);
    let cs = chars_of(t.as_str());
    let mut lo: usize = 0;
    assert(cs@.skip(0) == cs@);
    while lo < cs.len() && cs[lo] == '"'
        invariant
            lo <= cs@.len(),
            trim_start_char(cs@, '"') == trim_start_char(cs@.skip(lo as int), '"'),
        decreases cs@.len() - lo,
    {
        assert(cs@.skip(lo as int).drop_first() == cs@.skip(lo + 1));
        lo = lo + 1;
    }
    assert(trim_start_char(cs@.skip(lo as int), '"') == cs@.skip(lo as int));
    let rest = string_of_range(cs.as_slice(), lo, cs.len());
    let rs = chars_of(rest.as_str());
    let n = trim_end_char_len(rs.as_slice(), '"');
    string_of_range(rs.as_slice(), 0, n)
}

/// The text after `p`, when `s` starts with it.
pub fn after_prefix(s: &str, p: &str) -> (r: Option<String>)
    ensures
        match r {
            Some(t) => has_prefix(s@, p@) && t@ == s@.skip(p@.len() as int),
            None => !has_prefix(s@, p@),
        },
{
    let cs = chars_of(s);
    let ps = chars_of(p);
    if starts_with(cs.as_slice(), ps.as_slice()) {
        Some(string_of_range(cs.as_slice(), ps.len(), cs.len()))
    } else {
        None
    }
}

/// Finds the front matter of a document.
pub fn front_matter_of(content: &str) -> (r: Option<String>)
    ensures
        match r {
            Some(f) => front_matter(content@) == Some(f@),
            None => front_matter(content@) is None,
        },
{
    let cs = chars_of(content);
    let d = vec!['-', '-', '-'];
    assert(d@ == dashes());
    if !starts_with(cs.as_slice(), d.as_slice()) {
        return None;
    }
    let after = string_of_range(cs.as_slice(), 3, cs.len());
    let ac = chars_of(after.as_str());
    assert(ac@ == content@.skip(3));
    match find_from(ac.as_slice(), d.as_slice(), 0) {
        Some(e) => {
            proof {
                lemma_first_occurrence_bound(ac@, d@, 0);
            }
            Some(string_of_range(ac.as_slice(), 0, e))
        },
        None => None,
    }
}

/// The name and description read from front matter lines: for each
/// trimmed line, `name:` sets the name and `description:` the
/// description, the later line winning.
pub open spec fn fields_of_lines(ls: Seq<Seq<char>>) -> (Option<Seq<char>>, Seq<char>)
    decreases ls.len(),
{
    if ls.len() == 0 {
        (None, Seq::empty())
    } else {
        let acc = fields_of_lines(ls.drop_last());
        let l = trim(ls.last());
        if has_prefix(l, "name:"@) {
            (Some(clean_value(l.skip(5))), acc.1)
        } else if has_prefix(l, "description:"@) {
            (acc.0, clean_value(l.skip(12)))
        } else {
            acc
        }
    }
}

/// The name and description of a document's front matter; a document
/// without front matter has neither.
pub open spec fn frontmatter_fields(c: Seq<char>) -> (Option<Seq<char>>, Seq<char>) {
    match front_matter(c) {
        Some(f) => fields_of_lines(lines_of(f)),
        None => (None, Seq::empty()),
    }
}

/// Reads the `name` and `description` of a document's front matter.
pub fn parse_frontmatter(content: &str) -> (r: (Option<String>, String))
    ensures
        (match r.0 {
            Some(n) => Some(n@),
            None => None,
        }) == frontmatter_fields(content@).0,
        r.1@ == frontmatter_fields(content@).1,
{
    let mut name: Option<String> = None;
    let mut description = String::new();
    let fm = match front_matter_of(content) {
        Some(f) => f,
        None => {
            return (None, description);
        },
    };
    let lines = split_lines(fm.as_str());
    let ghost ls = lines_of(fm@);
    let mut i: usize = 0;
    assert(ls.take(0) =~= Seq::<Seq<char>>::empty());
    while i < lines.len()
        invariant
            i <= lines@.len(),
            views(lines@) == ls,
            (match name {
                Some(n) => Some(n@),
                None => None,
            }) == fields_of_lines(ls.take(i as int)).0,
            description@ == fields_of_lines(ls.take(i as int)).1,
        decreases lines@.len() - i,
    {
        assert(ls.take(i + 1).drop_last() == ls.take(i as int));
        assert(ls.take(i + 1).last() == ls[i as int]);
        assert(ls[i as int] == lines@[i as int]@);
        proof {
            reveal_strlit("name:");
            reveal_strlit("description:");
        }
        let l = trim_string(lines[i].as_str());
        match after_prefix(l.as_str(), "name:") {
            Some(v) => {
                name = Some(clean_value_exec(v.as_str()));
            },
            None => match after_prefix(l.as_str(), "description:") {
                Some(v) => {
                    description = clean_value_exec(v.as_str());
                },
                None => {},
            },
        }
        i = i + 1;
    }
    assert(ls.take(ls.len() as int) == ls);
    (name, description)
}

/// A line that, once trimmed, starts with `p`.
pub open spec fn key_line(p: Seq<char>) -> spec_fn(Seq<char>) -> bool {
    |l: Seq<char>| has_prefix(trim(l), p)
}

/// The value of the first front matter line that starts with `key:`.
pub open spec fn frontmatter_field(c: Seq<char>, key: Seq<char>) -> Option<Seq<char>> {
    match front_matter(c) {
        Some(f) => {
            let ls = lines_of(f);
            let p = key.push(':');
            match first_match(ls, key_line(p)) {
                Some(i) => Some(clean_value(trim(ls[i]).skip(p.len() as int))),
                None => None,
            }
        },
        None => None,
    }
}

/// Reads one field of a document's front matter.
pub fn extract_frontmatter_field(content: &str, key: &str) -> (r: Option<String>)
    ensures
        (match r {
            Some(v) => Some(v@),
            None => None,
        }) == frontmatter_field(content@, key@),
{
    let fm = match front_matter_of(content) {
        Some(f) => f,
        None => {
            return None;
        },
    };
    let mut p = owned(key);
    p.push(':');
    let ghost pv = key@.push(':');
    let ghost f = key_line(pv);
    let lines = split_lines(fm.as_str());
    let ghost ls = lines_of(fm@);
    proof {
        lemma_first_match(ls, f);
    }
    let mut i: usize = 0;
    while i < lines.len()
        invariant
            i <= lines@.len(),
            views(lines@) == ls,
            p@ == pv,
            pv == key@.push(':'),
            front_matter(content@) == Some(fm@),
            ls == lines_of(fm@),
            f == key_line(pv),
            forall|j: int| 0 <= j < i ==> !f(#[trigger] ls[j]),
            match first_match(ls, f) {
                Some(k) => 0 <= k < ls.len() && f(ls[k]) && forall|j: int| 0 <= j < k ==> !f(#[trigger] ls[j]),
                None => forall|j: int| 0 <= j < ls.len() ==> !f(#[trigger] ls[j]),
            },
        decreases lines@.len() - i,
    {
        assert(ls[i as int] == lines@[i as int]@);
        let l = trim_string(lines[i].as_str());
        match after_prefix(l.as_str(), p.as_str()) {
            Some(v) => {
                proof {
                    assert(f(ls[i as int]));
                    match first_match(ls, f) {
                        Some(k) => {
                            if k > i {
                                assert(!f(ls[i as int]));
                            } else if k < i {
                                assert(!f(ls[k]));
                            }
                        },
                        None => {
                            assert(!f(ls[i as int]));
                        },
                    }
                    assert(first_match(ls, f) == Some(i as int));
                    assert(front_matter(content@) == Some(fm@));
                    assert(pv.len() == p@.len());
                }
                let cv = clean_value_exec(v.as_str());
                assert(cv@ == clean_value(trim(ls[i as int]).skip(pv.len() as int)));
                return Some(cv);
            },
            None => {},
        }
        i = i + 1;
    }
    proof {
        if let Some(k) = first_match(ls, f) {
            assert(f(ls[k]));
        }
    }
    None
}

/// How a document splits into front matter and body.
pub open spec fn frontmatter_split(c: Seq<char>) -> (int, Seq<char>, Seq<char>) {
    if has_prefix(c, dashes()) {
        match first_occurrence(c.skip(3), dashes(), 0) {
            Some(e) => (
                encode_utf8(c.take(e + 6)).len() as int,
                trim(c.skip(3).take(e)),
                trim(c.skip(3).skip(e + 3)),
            ),
            None => (0, Seq::empty(), c),
        }
    } else {
        (0, Seq::empty(), c)
    }
}

/// Splits a document into the byte offset where its body starts, its
/// trimmed front matter and its trimmed body; a document without front
/// matter is all body.
pub fn split_frontmatter(content: &str) -> (r: (usize, String, String))
    ensures
        r.0 == frontmatter_split(content@).0 as usize,
        r.1@ == frontmatter_split(content@).1,
        r.2@ == frontmatter_split(content@).2,
{
    let cs = chars_of(content);
    let d = vec!['-', '-', '-'];
    assert(d@ == dashes());
    if !starts_with(cs.as_slice(), d.as_slice()) {
        return (0, String::new(), owned(content));
    }
    let after = string_of_range(cs.as_slice(), 3, cs.len());
    let ac = chars_of(after.as_str());
    assert(ac@ == content@.skip(3));
    match find_from(ac.as_slice(), d.as_slice(), 0) {
        Some(e) => {
            proof {
                lemma_first_occurrence_bound(ac@, d@, 0);
            }
            let fm = string_of_range(ac.as_slice(), 0, e);
            let body = string_of_range(ac.as_slice(), e + 3, ac.len());
            assert(ac@.subrange(e + 3, ac@.len() as int) == content@.skip(3).skip(e + 3));
            let head = string_of_range(cs.as_slice(), 0, e + 6);
            let n = head.as_str().len();
            (n, trim_string(fm.as_str()), trim_string(body.as_str()))
        },
        None => (0, String::new(), owned(content)),
    }
}

/// The extension of a file name, as `Path::extension` reads it: what follows
/// the last dot, when something precedes that dot; `..` has none.
pub open spec fn extension_of(name: Seq<char>) -> Option<Seq<char>> {
    if name == seq!['.', '.'] {
        None
    } else {
        match last_index_of(name, '.') {
            Some(k) => if k > 0 {
                Some(name.skip(k + 1))
            } else {
                None
            },
            None => None,
        }
    }
}

/// The stem of a file name, as `Path::file_stem` reads it: the name without
/// its extension and the dot before it.
pub open spec fn stem_of(name: Seq<char>) -> Seq<char> {
    match extension_of(name) {
        Some(e) => name.take(name.len() - e.len() - 1),
        None => name,
    }
}

/// Reads the extension of a file name.
pub fn file_extension(name: &str) -> (r: Option<String>)
    ensures
        match r {
            Some(e) => extension_of(name@) == Some(e@),
            None => extension_of(name@) is None,
        },
{
    let cs = chars_of(name);
    if cs.len() == 2 && cs[0] == '.' && cs[1] == '.' {
        assert(cs@ =~= seq!['.', '.']);
        return None;
    }
    assert(cs@ != seq!['.', '.']);
    match rfind_char(cs.as_slice(), '.') {
        Some(k) => {
            proof {
                lemma_last_index_bound(cs@, '.');
            }
            if k > 0 {
                Some(string_of_range(cs.as_slice(), k + 1, cs.len()))
            } else {
                None
            }
        },
        None => None,
    }
}

/// Reads the stem of a file name.
pub fn file_stem(name: &str) -> (r: String)
    ensures
        r@ == stem_of(name@),
{
    let cs = chars_of(name);
    if cs.len() == 2 && cs[0] == '.' && cs[1] == '.' {
        assert(cs@ =~= seq!['.', '.']);
        return owned(name);
    }
    assert(cs@ != seq!['.', '.']);
    match rfind_char(cs.as_slice(), '.') {
        Some(k) => {
            proof {
                lemma_last_index_bound(cs@, '.');
            }
            if k > 0 {
                string_of_range(cs.as_slice(), 0, k)
            } else {
                owned(name)
            }
        },
        None => owned(name),
    }
}

/// A skill found in a skills directory.
pub struct SkillInfo {
    pub name: String,
    pub description: String,
    pub skill_type: String,
    pub path: String,
    pub source: String,
}

/// A memory document.
pub struct MemoryFile {
    pub name: String,
    pub memory_type: String,
    pub description: String,
    pub path: String,
}

/// A sub-agent definition.
pub struct AgentDef {
    pub name: String,
    pub description: String,
    pub model: String,
    pub path: String,
}

/// An installed extension.
pub struct ExtensionInfo {
    pub name: String,
    pub version: String,
    pub description: String,
    pub enabled: bool,
    pub path: String,
    pub has_skills: bool,
    pub has_hooks: bool,
    pub has_commands: bool,
    pub has_agents: bool,
}

/// An optional text as a text, with a fallback.
pub open spec fn or_else(o: Option<Seq<char>>, d: Seq<char>) -> Seq<char> {
    match o {
        Some(v) => v,
        None => d,
    }
}

fn or_else_exec(o: Option<String>, d: String) -> (r: String)
    ensures
        r@ == or_else(
            match o {
                Some(v) => Some(v@),
                None => None,
            },
            d@,
        ),
{
    match o {
        Some(v) => v,
        None => d,
    }
}

/// Whether a file is a memory document: a Markdown file other than the
/// `MEMORY.md` index.
pub open spec fn is_memory_doc(name: Seq<char>) -> bool {
    extension_of(name) == Some(seq!['m', 'd']) && name != "MEMORY.md"@
}

/// Decides whether a file is a memory document.
pub fn memory_doc(name: &str) -> (r: bool)
    ensures
        r == is_memory_doc(name@),
{
    let md = vec!['m', 'd'];
    let ext = file_extension(name);
    let is_md = match &ext {
        Some(e) => {
            let ec = chars_of(e.as_str());
            crate::text::chars_eq(ec.as_slice(), md.as_slice())
        },
        None => false,
    };
    is_md && !crate::text::str_eq(name, "MEMORY.md")
}

/// Whether a file has the given extension.
pub fn has_extension(name: &str, ext: &str) -> (r: bool)
    ensures
        r == (extension_of(name@) == Some(ext@)),
{
    match file_extension(name) {
        Some(e) => crate::text::str_eq(e.as_str(), ext),
        None => false,
    }
}

/// The memory document read from a file: its front matter name (or the
/// file's stem), its `type` (or `unknown`) and its description.
pub fn memory_entry(content: &str, file_name: &str, path: &str) -> (r: MemoryFile)
    ensures
        r.name@ == or_else(frontmatter_fields(content@).0, stem_of(file_name@)),
        r.memory_type@ == or_else(frontmatter_field(content@, "type"@), "unknown"@),
        r.description@ == frontmatter_fields(content@).1,
        r.path@ == path@,
{
    let (name, desc) = parse_frontmatter(content);
    let t = extract_frontmatter_field(content, "type");
    MemoryFile {
        name: or_else_exec(name, file_stem(file_name)),
        memory_type: or_else_exec(t, owned("unknown")),
        description: desc,
        path: owned(path),
    }
}

/// The sub-agent read from a definition file: its front matter name (or the
/// file's stem), description and `model` (or nothing).
pub fn agent_entry(content: &str, file_name: &str, path: &str) -> (r: AgentDef)
    ensures
        r.name@ == or_else(frontmatter_fields(content@).0, stem_of(file_name@)),
        r.description@ == frontmatter_fields(content@).1,
        r.model@ == or_else(frontmatter_field(content@, "model"@), Seq::empty()),
        r.path@ == path@,
{
    let (name, desc) = parse_frontmatter(content);
    let m = extract_frontmatter_field(content, "model");
    AgentDef {
        name: or_else_exec(name, file_stem(file_name)),
        description: desc,
        model: or_else_exec(m, String::new()),
        path: owned(path),
    }
}

/// The skill read from a skill's document: its front matter name (or the
/// directory's name) and description, with where it came from.
pub fn skill_entry(content: &str, dir_name: &str, path: &str, source: &str) -> (r: SkillInfo)
    ensures
        r.name@ == or_else(frontmatter_fields(content@).0, dir_name@),
        r.description@ == frontmatter_fields(content@).1,
        r.skill_type@ == source@,
        r.path@ == path@,
        r.source@ == source@,
{
    let (name, desc) = parse_frontmatter(content);
    SkillInfo {
        name: or_else_exec(name, owned(dir_name)),
        description: desc,
        skill_type: owned(source),
        path: owned(path),
        source: owned(source),
    }
}

/// Where the skills of an extension come from: `ext:` and its name.
pub fn extension_skill_source(ext_name: &str) -> (r: String)
    ensures
        r@ == "ext:"@ + ext_name@,
{
    concat("ext:", ext_name)
}

/// Whether an extension is enabled: one without an entry in the
/// enablement file is; one with an entry is when the entry has
/// `overrides`.
pub open spec fn enabled_in(enablement: JVal, name: Seq<char>) -> bool {
    match field(enablement, name) {
        Some(v) => field(v, "overrides"@) is Some,
        None => true,
    }
}

/// Decides whether an extension is enabled.
pub fn extension_enabled(enablement: &JsonValue, name: &str) -> (r: bool)
    ensures
        r == enabled_in(view_json(*enablement), name@),
{
    match enablement.get(name) {
        Some(v) => v.get("overrides").is_some(),
        None => true,
    }
}

/// The version and description of an extension's parsed configuration;
/// what is missing reads as empty.
pub open spec fn config_meta(config: Option<JVal>) -> (Seq<char>, Seq<char>) {
    (
        or_else(str_of(field_of(config, "version"@)), Seq::empty()),
        or_else(str_of(field_of(config, "description"@)), Seq::empty()),
    )
}

/// View of an optional document.
pub open spec fn parsed_view(o: Option<JsonValue>) -> Option<JVal> {
    match o {
        Some(v) => Some(view_json(v)),
        None => None,
    }
}

/// Reads the version and description of a parsed extension configuration.
pub fn config_meta_of(config: &Option<JsonValue>) -> (r: (String, String))
    ensures
        r.0@ == config_meta(parsed_view(*config)).0,
        r.1@ == config_meta(parsed_view(*config)).1,
{
    let v = field_str(config.as_ref(), "version");
    let d = field_str(config.as_ref(), "description");
    (or_else_exec(v, String::new()), or_else_exec(d, String::new()))
}

/// Reads the version and description of an extension's configuration
/// text, when the extension has one.
pub fn extension_meta(config_text: &Option<String>) -> (r: (String, String))
    ensures
        match config_text {
            Some(t) => r.0@ == config_meta(parsed_json(t@)).0 && r.1@ == config_meta(parsed_json(t@)).1,
            None => r.0@.len() == 0 && r.1@.len() == 0,
        },
{
    match config_text {
        Some(t) => {
            let parsed = parse_json(t.as_str());
            config_meta_of(&parsed)
        },
        None => (String::new(), String::new()),
    }
}

/// An extension's parsed configuration as its detail shows it: the parsed
/// text, or `{}` when there is none or it does not parse.
pub open spec fn detail_config(text: Option<Seq<char>>) -> JVal {
    match text {
        Some(t) => match parsed_json(t) {
            Some(j) => j,
            None => JVal::Object(Seq::empty()),
        },
        None => JVal::Object(Seq::empty()),
    }
}

/// The detail document of an extension: `{"config": .., "context": ..,
/// "path": ..}`, with the configuration as `detail_config` gives it and the
/// context document as a string, or `null` when there is none.
pub open spec fn detail_doc(config_text: Option<Seq<char>>, context: Option<Seq<char>>, path: Seq<char>) -> JVal {
    JVal::Object(
        seq![
            ("config"@, detail_config(config_text)),
            ("context"@, match context {
                Some(c) => JVal::Str(c),
                None => JVal::Null,
            }),
            ("path"@, JVal::Str(path)),
        ],
    )
}

/// The detail of an extension: its parsed configuration (`{}` when there
/// is none or it does not parse), its context document (or `null`) and
/// its path.
pub fn extension_detail(config_text: &Option<String>, context: Option<String>, path: &str) -> (r: JsonValue)
    ensures
        view_json(r) == detail_doc(opt_str_view(*config_text), opt_str_view(context), path@),
{
    let ghost ctx_view = opt_str_view(context);
    let empty: Vec<(String, JsonValue)> = Vec::new();
    proof {
        lemma_view_object(empty);
        assert(view_members(empty@) =~= Seq::<(Seq<char>, JVal)>::empty());
    }
    let config = match config_text {
        Some(t) => match parse_json(t.as_str()) {
            Some(j) => j,
            None => JsonValue::Object(empty),
        },
        None => JsonValue::Object(empty),
    };
    let ctx = match context {
        Some(c) => JsonValue::Str(c),
        None => JsonValue::Null,
    };
    let ghost cv = view_json(config);
    let ghost xv = view_json(ctx);
    assert(cv == detail_config(opt_str_view(*config_text)));
    assert(xv == match ctx_view {
        Some(c) => JVal::Str(c),
        None => JVal::Null,
    });
    let m = vec![(owned("config"), config), (owned("context"), ctx), (owned("path"), JsonValue::Str(owned(path)))];
    proof {
        lemma_view_object(m);
        assert(view_members(m@) =~= seq![("config"@, cv), ("context"@, xv), ("path"@, JVal::Str(path@))]);
    }
    let ghost doc = detail_doc(opt_str_view(*config_text), opt_str_view(context), path@);
    proof {
        assert(view_members(m@) =~= match doc {
            JVal::Object(s) => s,
            _ => Seq::empty(),
        });
    }
    JsonValue::Object(m)
}

/// The enablement entries after enabling or disabling an extension: an
/// enabled one gets `{"overrides": ["*"]}`, a disabled one an entry `{}`
/// without overrides; anything but an object counts as no entries.
pub open spec fn toggled(enablement: Option<JVal>, name: Seq<char>, enabled: bool) -> Seq<(Seq<char>, JVal)> {
    let es = match members_of(enablement) {
        Some(es) => es,
        None => Seq::empty(),
    };
    if enabled {
        obj_insert(es, name, overrides_all())
    } else {
        obj_insert(es, name, JVal::Object(Seq::empty()))
    }
}

/// `{"overrides": ["*"]}`.
pub open spec fn overrides_all() -> JVal {
    JVal::Object(seq![("overrides"@, JVal::Array(seq![JVal::Str("*"@)]))])
}

/// Enables or disables an extension in the parsed enablement file.
pub fn toggle_enablement(enablement: &Option<JsonValue>, name: &str, enabled: bool) -> (r: JsonValue)
    ensures
        view_json(r) == JVal::Object(toggled(parsed_view(*enablement), name@, enabled)),
{
    let mut m: Vec<(String, JsonValue)> = match enablement {
        Some(JsonValue::Object(m)) => {
            proof {
                lemma_view_object(*m);
            }
            copy_members(m)
        },
        _ => Vec::new(),
    };
    assert(view_members(m@) == (match members_of(parsed_view(*enablement)) {
        Some(es) => es,
        None => Seq::<(Seq<char>, JVal)>::empty(),
    }));
    if enabled {
        let star = JsonValue::Str(owned("*"));
        let arr = vec![star];
        proof {
            lemma_view_array(arr);
            reveal_strlit("*");
        }
        let inner = vec![(owned("overrides"), JsonValue::Array(arr))];
        proof {
            lemma_view_object(inner);
            assert(view_elements(arr@) =~= seq![JVal::Str("*"@)]);
            assert(view_members(inner@) =~= seq![("overrides"@, JVal::Array(seq![JVal::Str("*"@)]))]);
        }
        members_insert(&mut m, owned(name), JsonValue::Object(inner));
    } else {
        let empty: Vec<(String, JsonValue)> = Vec::new();
        proof {
            lemma_view_object(empty);
            assert(view_members(empty@) =~= Seq::<(Seq<char>, JVal)>::empty());
        }
        members_insert(&mut m, owned(name), JsonValue::Object(empty));
    }
    proof {
        lemma_view_object(m);
    }
    JsonValue::Object(m)
}

/// Enables or disables an extension in the enablement file's text.
pub fn toggle_enablement_text(text: &Option<String>, name: &str, enabled: bool) -> (r: JsonValue)
    ensures
        view_json(r) == JVal::Object(
            toggled(
                match text {
                    Some(t) => parsed_json(t@),
                    None => None,
                },
                name@,
                enabled,
            ),
        ),
{
    let parsed = match text {
        Some(t) => parse_json(t.as_str()),
        None => None,
    };
    toggle_enablement(&parsed, name, enabled)
}

/// The enablement file's text as read for listing: its document, or
/// nothing when there is no file or it does not parse.
pub open spec fn enablement_doc(text: Option<Seq<char>>) -> JVal {
    match text {
        Some(t) => match parsed_json(t) {
            Some(j) => j,
            None => JVal::Null,
        },
        None => JVal::Null,
    }
}

/// Decides whether an extension is enabled from the enablement file's
/// text, when there is one.
pub fn extension_enabled_in_text(text: &Option<String>, name: &str) -> (r: bool)
    ensures
        r == enabled_in(
            enablement_doc(
                match text {
                    Some(t) => Some(t@),
                    None => None,
                },
            ),
            name@,
        ),
{
    let doc = match text {
        Some(t) => match parse_json(t.as_str()) {
            Some(j) => j,
            None => JsonValue::Null,
        },
        None => JsonValue::Null,
    };
    extension_enabled(&doc, name)
}

/// Enabling an extension makes it read as enabled.
pub proof fn lemma_enable_then_enabled(enablement: Option<JVal>, name: Seq<char>)
    ensures
        enabled_in(JVal::Object(toggled(enablement, name, true)), name),
{
    let es = match members_of(enablement) {
        Some(es) => es,
        None => Seq::empty(),
    };
    lemma_lookup_after_insert(es, name, overrides_all());
    assert(obj_lookup(seq![("overrides"@, JVal::Array(seq![JVal::Str("*"@)]))], "overrides"@) is Some);
}

/// Disabling an extension makes it read as disabled.
pub proof fn lemma_disable_then_disabled(enablement: Option<JVal>, name: Seq<char>)
    ensures
        !enabled_in(JVal::Object(toggled(enablement, name, false)), name),
{
    let es = match members_of(enablement) {
        Some(es) => es,
        None => Seq::empty(),
    };
    lemma_lookup_after_insert(es, name, JVal::Object(Seq::empty()));
}

/// A project and how many sessions it has.
pub struct ProjectInfo {
    pub name: String,
    pub path: String,
    pub session_count: usize,
}

/// A project's entry in the index.
pub struct ProjectIndex {
    pub name: String,
    pub session_count: usize,
    pub memory_count: usize,
    pub latest_session: Option<String>,
}

/// The global memories and the indexed projects.
pub struct GlobalIndex {
    pub memories: Vec<MemoryFile>,
    pub projects: Vec<ProjectIndex>,
}

/// How many of the names satisfy `f`.
pub open spec fn count_where(names: Seq<Seq<char>>, f: spec_fn(Seq<char>) -> bool) -> nat
    decreases names.len(),
{
    if names.len() == 0 {
        0
    } else {
        count_where(names.drop_last(), f) + if f(names.last()) {
            1nat
        } else {
            0nat
        }
    }
}

proof fn lemma_count_where_le(names: Seq<Seq<char>>, f: spec_fn(Seq<char>) -> bool)
    ensures
        count_where(names, f) <= names.len(),
    decreases names.len(),
{
    if names.len() > 0 {
        lemma_count_where_le(names.drop_last(), f);
    }
}

/// A file name with extension `ext`.
pub open spec fn with_ext(ext: Seq<char>) -> spec_fn(Seq<char>) -> bool {
    |n: Seq<char>| extension_of(n) == Some(ext)
}

/// A memory document's file name.
pub open spec fn memory_name() -> spec_fn(Seq<char>) -> bool {
    |n: Seq<char>| is_memory_doc(n)
}

/// Counts the file names with a given extension.
pub fn count_with_extension(names: &Vec<String>, ext: &str) -> (r: usize)
    ensures
        r as nat == count_where(views(names@), with_ext(ext@)),
{
    let ghost nv = views(names@);
    let mut c: usize = 0;
    let mut i: usize = 0;
    while i < names.len()
        invariant
            i <= names@.len(),
            nv == views(names@),
            c as nat == count_where(nv.take(i as int), with_ext(ext@)),
            c <= i,
        decreases names@.len() - i,
    {
        assert(nv.take(i + 1).drop_last() == nv.take(i as int));
        assert(nv.take(i + 1).last() == names@[i as int]@);
        if has_extension(names[i].as_str(), ext) {
            c = c + 1;
        }
        i = i + 1;
    }
    assert(nv.take(nv.len() as int) == nv);
    c
}

/// Counts the memory documents among file names.
pub fn count_memory_docs(names: &Vec<String>) -> (r: usize)
    ensures
        r as nat == count_where(views(names@), memory_name()),
{
    let ghost nv = views(names@);
    let mut c: usize = 0;
    let mut i: usize = 0;
    while i < names.len()
        invariant
            i <= names@.len(),
            nv == views(names@),
            c as nat == count_where(nv.take(i as int), memory_name()),
            c <= i,
        decreases names@.len() - i,
    {
        assert(nv.take(i + 1).drop_last() == nv.take(i as int));
        assert(nv.take(i + 1).last() == names@[i as int]@);
        if memory_doc(names[i].as_str()) {
            c = c + 1;
        }
        i = i + 1;
    }
    assert(nv.take(nv.len() as int) == nv);
    c
}

/// A project with the number of session files among its chat files.
pub fn project_info(name: &str, path: &str, chat_files: &Vec<String>) -> (r: ProjectInfo)
    ensures
        r.name@ == name@,
        r.path@ == path@,
        r.session_count as nat == count_where(views(chat_files@), with_ext("jsonl"@)),
{
    ProjectInfo { name: owned(name), path: owned(path), session_count: count_with_extension(chat_files, "jsonl") }
}

/// Position of the latest session: the greatest modification time, the
/// first such session when several share it.
pub open spec fn latest_index(s: Seq<(Seq<char>, u128)>) -> int
    decreases s.len(),
{
    if s.len() <= 1 {
        0
    } else {
        let k = latest_index(s.drop_last());
        if s.last().1 > s[k].1 {
            s.len() - 1
        } else {
            k
        }
    }
}

proof fn lemma_latest_index(s: Seq<(Seq<char>, u128)>)
    requires
        s.len() > 0,
    ensures
        0 <= latest_index(s) < s.len(),
        forall|j: int| 0 <= j < s.len() ==> #[trigger] s[j].1 <= s[latest_index(s)].1,
        forall|j: int| 0 <= j < latest_index(s) ==> #[trigger] s[j].1 < s[latest_index(s)].1,
    decreases s.len(),
{
    if s.len() > 1 {
        lemma_latest_index(s.drop_last());
        assert forall|j: int| 0 <= j < s.len() - 1 implies s[j] == s.drop_last()[j] by {}
    }
}

/// A project's index entry from its sessions (name and modification time)
/// and its memory directory's file names.
pub fn project_index(name: &str, sessions: &Vec<(String, u128)>, memory_files: &Vec<String>) -> (r: ProjectIndex)
    ensures
        r.name@ == name@,
        r.session_count == sessions@.len(),
        r.memory_count as nat == count_where(views(memory_files@), memory_name()),
        match r.latest_session {
            Some(l) => sessions@.len() > 0 && l@ == sessions@[latest_index(stamps_view(sessions@))].0@,
            None => sessions@.len() == 0,
        },
{
    let ghost sv = stamps_view(sessions@);
    let latest = if sessions.len() == 0 {
        None
    } else {
        let mut k: usize = 0;
        let mut i: usize = 1;
        assert(sv.take(1).drop_last() =~= Seq::<(Seq<char>, u128)>::empty());
        while i < sessions.len()
            invariant
                1 <= i <= sessions@.len(),
                sv == stamps_view(sessions@),
                k < i,
                k as int == latest_index(sv.take(i as int)),
            decreases sessions@.len() - i,
        {
            assert(sv.take(i + 1).drop_last() == sv.take(i as int));
            assert(sv.take(i + 1).last() == sv[i as int]);
            assert(sv.take(i as int)[k as int] == sv[k as int]);
            if sessions[i].1 > sessions[k].1 {
                k = i;
            }
            i = i + 1;
        }
        assert(sv.take(sv.len() as int) == sv);
        Some(copy_string(&sessions[k].0))
    };
    ProjectIndex {
        name: owned(name),
        session_count: sessions.len(),
        memory_count: count_memory_docs(memory_files),
        latest_session: latest,
    }
}

/// Views of named time stamps.
pub open spec fn stamps_view(s: Seq<(String, u128)>) -> Seq<(Seq<char>, u128)> {
    Seq::new(s.len(), |i: int| (s[i].0@, s[i].1))
}

/// The latest session is one with the greatest modification time, and
/// every session before it in the listing is older.
pub proof fn lemma_latest_is_newest(s: Seq<(Seq<char>, u128)>)
    requires
        s.len() > 0,
    ensures
        forall|j: int| 0 <= j < s.len() ==> #[trigger] s[j].1 <= s[latest_index(s)].1,
        forall|j: int| 0 <= j < latest_index(s) ==> #[trigger] s[j].1 < s[latest_index(s)].1,
{
    lemma_latest_index(s);
}

} // verus!
