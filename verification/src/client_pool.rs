use vstd::prelude::*;

use crate::text::{owned, str_eq};

verus! {

/// The proxy settings of the environment when a client was built.
#[derive(Clone, Debug)]
pub struct ProxySnapshot {
    pub http_proxy: Option<String>,
    pub https_proxy: Option<String>,
    pub no_proxy: Option<String>,
}

/// The settings a cached client was built with.
pub struct CachedSetting {
    pub proxy_mode: String,
    pub proxy_url: Option<String>,
    pub env: ProxySnapshot,
}

/// View of an optional text.
pub open spec fn opt_view(o: Option<String>) -> Option<Seq<char>> {
    match o {
        Some(s) => Some(s@),
        None => None,
    }
}

/// View of a snapshot.
pub open spec fn snapshot_view(s: ProxySnapshot) -> (Option<Seq<char>>, Option<Seq<char>>, Option<Seq<char>>) {
    (opt_view(s.http_proxy), opt_view(s.https_proxy), opt_view(s.no_proxy))
}

/// Whether a provider's client must be built anew: when none is cached,
/// when its proxy mode or URL changed, or, for the `system` mode, when the
/// environment's proxy settings changed.
pub open spec fn must_rebuild(
    cached: Option<(Seq<char>, Option<Seq<char>>, (Option<Seq<char>>, Option<Seq<char>>, Option<Seq<char>>))>,
    mode: Seq<char>,
    url: Option<Seq<char>>,
    current: (Option<Seq<char>>, Option<Seq<char>>, Option<Seq<char>>),
) -> bool {
    match cached {
        None => true,
        Some((m, u, env)) => m != mode || u != url || (m == "system"@ && env != current),
    }
}

/// View of a cached setting.
pub open spec fn cached_view(c: Option<CachedSetting>) -> Option<(Seq<char>, Option<Seq<char>>, (Option<Seq<char>>, Option<Seq<char>>, Option<Seq<char>>))> {
    match c {
        Some(c) => Some((c.proxy_mode@, opt_view(c.proxy_url), snapshot_view(c.env))),
        None => None,
    }
}

fn opt_eq(a: &Option<String>, b: &Option<String>) -> (r: bool)
    ensures
        r == (opt_view(*a) == opt_view(*b)),
{
    match (a, b) {
        (Some(x), Some(y)) => str_eq(x.as_str(), y.as_str()),
        (None, None) => true,
        _ => false,
    }
}

/// Decides whether a provider's client must be built anew.
pub fn needs_rebuild(
    cached: &Option<CachedSetting>,
    proxy_mode: &str,
    proxy_url: &Option<String>,
    current: &ProxySnapshot,
) -> (r: bool)
    ensures
        r == must_rebuild(cached_view(*cached), proxy_mode@, opt_view(*proxy_url), snapshot_view(*current)),
{
    match cached {
        None => true,
        Some(c) => {
            let config_changed = !str_eq(c.proxy_mode.as_str(), proxy_mode) || !opt_eq(&c.proxy_url, proxy_url);
            let env_same = opt_eq(&c.env.http_proxy, &current.http_proxy) && opt_eq(
                &c.env.https_proxy,
                &current.https_proxy,
            ) && opt_eq(&c.env.no_proxy, &current.no_proxy);
            let env_changed = str_eq(c.proxy_mode.as_str(), "system") && !env_same;
            config_changed || env_changed
        },
    }
}

/// A client built with unchanged settings is reused: when the mode and URL
/// are the same, and either the mode is not `system` or the environment is
/// unchanged, no rebuild happens.
pub proof fn lemma_unchanged_is_reused(
    mode: Seq<char>,
    url: Option<Seq<char>>,
    env: (Option<Seq<char>>, Option<Seq<char>>, Option<Seq<char>>),
    current: (Option<Seq<char>>, Option<Seq<char>>, Option<Seq<char>>),
)
    requires
        mode != "system"@ || env == current,
    ensures
        !must_rebuild(Some((mode, url, env)), mode, url, current),
{
}

/// How a client reaches the network.
pub enum ProxyChoice {
    NoProxy,
    Custom { url: String },
    SystemDefault,
}

/// How a client reaches the network for a proxy mode: `direct` never uses
/// a proxy, `custom` uses the given URL when there is one, anything else
/// follows the system's settings.
pub open spec fn proxy_choice(mode: Seq<char>, url: Option<Seq<char>>) -> (u8, Seq<char>) {
    if mode == "direct"@ {
        (0, Seq::empty())
    } else if mode == "custom"@ {
        match url {
            Some(u) => (1, u),
            None => (2, Seq::empty()),
        }
    } else {
        (2, Seq::empty())
    }
}

/// View of a proxy choice.
pub open spec fn choice_view(c: ProxyChoice) -> (u8, Seq<char>) {
    match c {
        ProxyChoice::NoProxy => (0, Seq::empty()),
        ProxyChoice::Custom { url } => (1, url@),
        ProxyChoice::SystemDefault => (2, Seq::empty()),
    }
}

/// Decides how a client reaches the network.
pub fn choose_proxy(proxy_mode: &str, proxy_url: &Option<String>) -> (r: ProxyChoice)
    ensures
        choice_view(r) == proxy_choice(proxy_mode@, opt_view(*proxy_url)),
{
    if str_eq(proxy_mode, "direct") {
        ProxyChoice::NoProxy
    } else if str_eq(proxy_mode, "custom") {
        match proxy_url {
            Some(u) => ProxyChoice::Custom { url: owned(u.as_str()) },
            None => ProxyChoice::SystemDefault,
        }
    } else {
        ProxyChoice::SystemDefault
    }
}

/// An environment setting read under its upper-case name, or else its
/// lower-case one.
pub fn env_setting(upper: Option<String>, lower: Option<String>) -> (r: Option<String>)
    ensures
        opt_view(r) == match opt_view(upper) {
            Some(u) => Some(u),
            None => opt_view(lower),
        },
{
    match upper {
        Some(u) => Some(u),
        None => lower,
    }
}

} // verus!
