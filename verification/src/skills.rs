use vstd::prelude::*;

use crate::discovery::text_or;
use crate::json::{elements_of, field, str_of, u64_of, view_elements, view_json, JVal, JsonValue};
use crate::text::{concat, contains, owned, split_by, split_char, str_eq, views};

verus! {

/// A skill found in the public skill directory.
pub struct SkillSearchResult {
    pub key: String,
    pub name: String,
    pub description: String,
    pub repo_owner: String,
    pub repo_name: String,
    pub repo_branch: String,
    pub directory: String,
    pub installs: u64,
    pub readme_url: Option<String>,
    pub installed: bool,
}

/// View of a found skill: key, name, description, owner, repository,
/// branch, directory, installs, read-me link and whether it is installed.
pub open spec fn found_view(r: SkillSearchResult) -> (
    Seq<char>,
    Seq<char>,
    Seq<char>,
    Seq<char>,
    Seq<char>,
    Seq<char>,
    Seq<char>,
    u64,
    Option<Seq<char>>,
    bool,
) {
    (
        r.key@,
        r.name@,
        r.description@,
        r.repo_owner@,
        r.repo_name@,
        r.repo_branch@,
        r.directory@,
        r.installs,
        match r.readme_url {
            Some(u) => Some(u@),
            None => None,
        },
        r.installed,
    )
}

/// Views of found skills.
pub open spec fn founds_view(s: Seq<SkillSearchResult>) -> Seq<
    (Seq<char>, Seq<char>, Seq<char>, Seq<char>, Seq<char>, Seq<char>, Seq<char>, u64, Option<Seq<char>>, bool),
> {
    Seq::new(s.len(), |i: int| found_view(s[i]))
}

/// The skill read from a directory entry whose `source` is a GitHub
/// `owner/repo` (no dot, at least two slash-separated parts).
pub open spec fn found_skill(j: JVal, installed: Seq<Seq<char>>) -> Option<
    (Seq<char>, Seq<char>, Seq<char>, Seq<char>, Seq<char>, Seq<char>, Seq<char>, u64, Option<Seq<char>>, bool),
> {
    let source = text_or(str_of(field(j, "source"@)), Seq::empty());
    let parts = split_by(source, '/');
    if contains(source, "."@) || parts.len() < 2 {
        None
    } else {
        let owner = parts[0];
        let repo = parts[1];
        let name = text_or(str_of(field(j, "name"@)), Seq::empty());
        Some(
            (
                owner + "/"@ + repo + ":"@ + name,
                name,
                text_or(str_of(field(j, "description"@)), Seq::empty()),
                owner,
                repo,
                "main"@,
                name,
                match u64_of(field(j, "installs"@)) {
                    Some(n) => n,
                    None => 0,
                },
                Some("https://github.com/"@ + owner + "/"@ + repo),
                installed.contains(name),
            ),
        )
    }
}

/// The skills read from directory entries.
pub open spec fn found_skills(es: Seq<JVal>, installed: Seq<Seq<char>>) -> Seq<
    (Seq<char>, Seq<char>, Seq<char>, Seq<char>, Seq<char>, Seq<char>, Seq<char>, u64, Option<Seq<char>>, bool),
>
    decreases es.len(),
{
    if es.len() == 0 {
        Seq::empty()
    } else {
        match found_skill(es.last(), installed) {
            Some(s) => found_skills(es.drop_last(), installed).push(s),
            None => found_skills(es.drop_last(), installed),
        }
    }
}

/// The skills of a directory answer: its `skills` list, or none.
pub open spec fn answer_skills(body: JVal, installed: Seq<Seq<char>>) -> Seq<
    (Seq<char>, Seq<char>, Seq<char>, Seq<char>, Seq<char>, Seq<char>, Seq<char>, u64, Option<Seq<char>>, bool),
> {
    match elements_of(field(body, "skills"@)) {
        Some(es) => found_skills(es, installed),
        None => Seq::empty(),
    }
}

fn text_member(e: &JsonValue, key: &str) -> (r: String)
    ensures
        r@ == text_or(str_of(field(view_json(*e), key@)), Seq::empty()),
{
    match e.get(key) {
        Some(x) => match x.as_str() {
            Some(t) => owned(t),
            None => String::new(),
        },
        None => String::new(),
    }
}

fn holds(v: &Vec<String>, t: &str) -> (r: bool)
    ensures
        r == views(v@).contains(t@),
{
    let mut i: usize = 0;
    while i < v.len()
        invariant
            i <= v@.len(),
            forall|q: int| 0 <= q < i ==> v@[q]@ != t@,
        decreases v@.len() - i,
    {
        if str_eq(v[i].as_str(), t) {
            assert(views(v@)[i as int] == t@);
            return true;
        }
        i = i + 1;
    }
    assert forall|q: int| 0 <= q < views(v@).len() implies views(v@)[q] != t@ by {}
    false
}

/// Reads the skills of a directory search answer, marking those whose name
/// is among the installed skill directories.
pub fn skills_from_search(body: &JsonValue, installed: &Vec<String>) -> (r: Vec<SkillSearchResult>)
    ensures
        founds_view(r@) == answer_skills(view_json(*body), views(installed@)),
{
    let es = match body.get("skills") {
        Some(JsonValue::Array(es)) => es,
        _ => {
            let out: Vec<SkillSearchResult> = Vec::new();
            assert(founds_view(out@) =~= Seq::empty());
            return out;
        },
    };
    proof {
        crate::json::lemma_view_array(*es);
    }
    let ghost ev = view_elements(es@);
    let ghost iv = views(installed@);
    let mut out: Vec<SkillSearchResult> = Vec::new();
    assert(founds_view(out@) =~= Seq::empty());
    let mut i: usize = 0;
    while i < es.len()
        invariant
            i <= es@.len(),
            ev == view_elements(es@),
            iv == views(installed@),
            founds_view(out@) == found_skills(ev.take(i as int), iv),
        decreases es@.len() - i,
    {
        assert(ev.take(i + 1).drop_last() == ev.take(i as int));
        assert(ev.take(i + 1).last() == ev[i as int]);
        let e = &es[i];
        let source = text_member(e, "source");
        let parts = split_char(source.as_str(), '/');
        proof {
            reveal_strlit(".");
        }
        if !crate::text::str_contains(source.as_str(), ".") && parts.len() >= 2 {
            assert(views(parts@)[0] == parts@[0]@ && views(parts@)[1] == parts@[1]@);
            let owner = owned(parts[0].as_str());
            let repo = owned(parts[1].as_str());
            let name = text_member(e, "name");
            let mut key = owned(owner.as_str());
            key.push_str("/");
            key.push_str(repo.as_str());
            key.push_str(":");
            key.push_str(name.as_str());
            let mut url = owned("https://github.com/");
            url.push_str(owner.as_str());
            url.push_str("/");
            url.push_str(repo.as_str());
            let installs = match e.get("installs") {
                Some(v) => match v.as_u64() {
                    Some(n) => n,
                    None => 0,
                },
                None => 0,
            };
            let is_in = holds(installed, name.as_str());
            let r = SkillSearchResult {
                key,
                name: owned(name.as_str()),
                description: text_member(e, "description"),
                repo_owner: owner,
                repo_name: repo,
                repo_branch: owned("main"),
                directory: name,
                installs,
                readme_url: Some(url),
                installed: is_in,
            };
            let ghost before = founds_view(out@);
            out.push(r);
            assert(founds_view(out@) =~= before.push(found_view(r)));
        }
        i = i + 1;
    }
    assert(ev.take(ev.len() as int) == ev);
    out
}

/// Where a skill is installed from and to.
pub struct InstallPlan {
    pub zip_url: String,
    pub extracted_dir: String,
    pub source_subdir: Option<String>,
    pub target_name: String,
}

/// How a skill is installed from a GitHub repository: the branch archive,
/// the directory it unpacks to, the skill's directory inside it (none for
/// the repository root) and the name it is installed under.
pub open spec fn install_plan(owner: Seq<char>, repo: Seq<char>, branch: Seq<char>, directory: Seq<char>) -> (
    Seq<char>,
    Seq<char>,
    Option<Seq<char>>,
    Seq<char>,
) {
    (
        "https://github.com/"@ + owner + "/"@ + repo + "/archive/refs/heads/"@ + branch + ".zip"@,
        repo + "-"@ + branch,
        if directory.len() == 0 || directory == repo {
            None
        } else {
            Some(directory)
        },
        if directory.len() == 0 {
            repo
        } else {
            directory
        },
    )
}

/// Plans the installation of a skill from a GitHub repository.
pub fn plan_install(owner: &str, repo: &str, branch: &str, directory: &str) -> (r: InstallPlan)
    ensures
        (r.zip_url@, r.extracted_dir@, match r.source_subdir {
            Some(d) => Some(d@),
            None => None,
        }, r.target_name@) == install_plan(owner@, repo@, branch@, directory@),
{
    let mut zip_url = owned("https://github.com/");
    zip_url.push_str(owner);
    zip_url.push_str("/");
    zip_url.push_str(repo);
    zip_url.push_str("/archive/refs/heads/");
    zip_url.push_str(branch);
    zip_url.push_str(".zip");
    let mut extracted_dir = owned(repo);
    extracted_dir.push_str("-");
    extracted_dir.push_str(branch);
    let source_subdir = if directory.is_empty() || str_eq(directory, repo) {
        None
    } else {
        Some(owned(directory))
    };
    let target_name = if directory.is_empty() {
        owned(repo)
    } else {
        owned(directory)
    };
    assert(zip_url@ =~= install_plan(owner@, repo@, branch@, directory@).0);
    assert(extracted_dir@ =~= install_plan(owner@, repo@, branch@, directory@).1);
    InstallPlan { zip_url, extracted_dir, source_subdir, target_name }
}

} // verus!
