use vstd::prelude::*;

verus! {

/// Name for what `Path::join` makes of a base path and a relative part: the
/// part adjoined to the base with the platform's separator (or the part
/// alone when it is absolute).
pub uninterp spec fn joined_path(base: Seq<char>, part: Seq<char>) -> Seq<char>;

/// Calls `Path::join` on UTF-8 paths; the result depends on the two texts
/// alone.  How the separator is chosen is left to std.
#[verifier::external_body]
pub(crate) fn join_path(base: &str, part: &str) -> (r: String)
    ensures
        r@ == joined_path(base@, part@),
{
    std::path::Path::new(base).join(part).to_string_lossy().into_owned()
}

/// Calls `dirs::home_dir`, which asks the environment and the system for the
/// user's home directory; nothing is stated of what it finds.
#[verifier::external_body]
pub(crate) fn home_dir() -> (r: Option<String>) {
    dirs::home_dir().map(|p| p.to_string_lossy().into_owned())
}

/// The home directory, or `.` when none is known.
pub open spec fn home_or_dot(home: Option<Seq<char>>) -> Seq<char> {
    match home {
        Some(h) => h,
        None => "."@,
    }
}

/// The view of an optional string.
pub open spec fn opt_str_view(o: Option<String>) -> Option<Seq<char>> {
    match o {
        Some(s) => Some(s@),
        None => None,
    }
}

/// `<home>/.qwen`, where Qwen Code keeps its files, for a given home
/// directory (`.` when none is known).
pub fn qwen_home_in(home: Option<String>) -> (r: String)
    ensures
        r@ == joined_path(home_or_dot(opt_str_view(home)), ".qwen"@),
{
    let base = match home {
        Some(h) => h,
        None => crate::text::owned("."),
    };
    join_path(base.as_str(), ".qwen")
}

/// `~/.qwen`, where Qwen Code keeps its files.
pub fn qwen_home() -> (r: String)
    ensures
        exists|h: Option<Seq<char>>| r@ == joined_path(home_or_dot(h), ".qwen"@),
{
    let home = home_dir();
    let r = qwen_home_in(home);
    proof {
        let h = opt_str_view(home);
        assert(r@ == joined_path(home_or_dot(h), ".qwen"@));
    }
    r
}

/// The user's `settings.json` of Qwen Code under a given home directory.
pub fn settings_path_in(home: Option<String>) -> (r: String)
    ensures
        r@ == joined_path(joined_path(home_or_dot(opt_str_view(home)), ".qwen"@), "settings.json"@),
{
    let q = qwen_home_in(home);
    join_path(q.as_str(), "settings.json")
}

/// The user's `.env` file of Qwen Code under a given home directory.
pub fn env_path_in(home: Option<String>) -> (r: String)
    ensures
        r@ == joined_path(joined_path(home_or_dot(opt_str_view(home)), ".qwen"@), ".env"@),
{
    let q = qwen_home_in(home);
    join_path(q.as_str(), ".env")
}

/// The user's `settings.json`: `~/.qwen/settings.json`.
pub fn user_settings_path() -> (r: String)
    ensures
        exists|h: Option<Seq<char>>|
            r@ == joined_path(joined_path(home_or_dot(h), ".qwen"@), "settings.json"@),
{
    let home = home_dir();
    let r = settings_path_in(home);
    proof {
        let h = opt_str_view(home);
        assert(r@ == joined_path(joined_path(home_or_dot(h), ".qwen"@), "settings.json"@));
    }
    r
}

/// The user's `.env` file: `~/.qwen/.env`.
pub fn env_file_path() -> (r: String)
    ensures
        exists|h: Option<Seq<char>>|
            r@ == joined_path(joined_path(home_or_dot(h), ".qwen"@), ".env"@),
{
    let home = home_dir();
    let r = env_path_in(home);
    proof {
        let h = opt_str_view(home);
        assert(r@ == joined_path(joined_path(home_or_dot(h), ".qwen"@), ".env"@));
    }
    r
}

} // verus!
