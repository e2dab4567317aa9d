use vstd::prelude::*;

use crate::text::{
    chars_of, first_occurrence, find_from, has_prefix, index_or_len, index_or_len_exec,
    last_index_of, rfind_char, starts_with, string_of, string_of_range, trim, trim_bounds,
    trim_end_char, trim_end_char_len,
};

verus! {

/// End of the `scheme://` part of a URL: the position of the second `/` of
/// the first `://`, or 0 when there is none.
pub open spec fn host_start_bound(base: Seq<char>) -> int {
    match first_occurrence(base, "://"@, 0) {
        Some(i) => i + 2,
        None => 0,
    }
}

/// How many leading characters of `endpoint` repeat the last path segment of
/// `base` (a trimmed base URL), or 0 when none do.  The segment counts from
/// its leading `/`, and repeats only when `endpoint` continues after it with
/// another `/`.
pub open spec fn duplicated_prefix_len(base: Seq<char>, endpoint: Seq<char>) -> int {
    match last_index_of(base, '/') {
        Some(ls) => if ls > host_start_bound(base) {
            let seg = base.skip(ls);
            if has_prefix(endpoint, seg) && endpoint.len() > seg.len() && endpoint[seg.len() as int]
                == '/' {
                seg.len() as int
            } else {
                0
            }
        } else {
            0
        },
        None => 0,
    }
}

/// The upstream URL for a proxied endpoint: the base URL without trailing
/// slashes, followed by the endpoint minus a version segment that the base
/// already ends with (`.../v1` + `/v1/messages` gives `.../v1/messages`).
pub open spec fn upstream_url(base_url: Seq<char>, endpoint: Seq<char>) -> Seq<char> {
    let base = trim_end_char(base_url, '/');
    base + endpoint.skip(duplicated_prefix_len(base, endpoint))
}

/// Builds the upstream URL from a provider's base URL and the endpoint path
/// the proxy received.
pub fn build_upstream_url(base_url: &str, endpoint: &str) -> (r: String)
    ensures
        r@ == upstream_url(base_url@, endpoint@),
{
    let bc = chars_of(base_url);
    let ec = chars_of(endpoint);
    let n = trim_end_char_len(bc.as_slice(), '/');
    let base = string_of_range(bc.as_slice(), 0, n);
    let bcs = chars_of(base.as_str());
    assert(bc@.subrange(0, n as int) == bc@.take(n as int));
    let ghost b = bcs@;
    let mut cut: usize = 0;
    if let Some(last_slash) = rfind_char(bcs.as_slice(), '/') {
        let sep = chars_of("://");
        let host_end: usize = match find_from(bcs.as_slice(), sep.as_slice(), 0) {
            Some(i) => {
                proof {
                    crate::text::lemma_first_occurrence_bound(b, sep@, 0);
                    reveal_strlit("://");
                }
                i + 2
            },
            None => 0,
        };
        proof {
            crate::text::lemma_last_index_bound(b, '/');
        }
        if last_slash > host_end {
            let seg_len = bcs.len() - last_slash;
            let seg = string_of_range(bcs.as_slice(), last_slash, bcs.len());
            let segc = chars_of(seg.as_str());
            assert(segc@ == b.skip(last_slash as int));
            if starts_with(ec.as_slice(), segc.as_slice()) && ec.len() > seg_len && ec[seg_len]
                == '/' {
                cut = seg_len;
            }
        }
    }
    assert(cut == duplicated_prefix_len(b, ec@));
    let mut r = base;
    let tail = string_of_range(ec.as_slice(), cut, ec.len());
    r.push_str(tail.as_str());
    assert(ec@.subrange(cut as int, ec@.len() as int) == ec@.skip(cut as int));
    r
}

/// The host of a URL: the text after the first `://` (or the whole trimmed
/// text when there is none), up to the first `/`, and then up to the first `:`.
pub open spec fn host_of(url: Seq<char>) -> Seq<char> {
    let s = trim(url);
    let after = match first_occurrence(s, "://"@, 0) {
        Some(i) => s.skip(i + 3),
        None => s,
    };
    let authority = after.take(index_or_len(after, '/'));
    authority.take(index_or_len(authority, ':'))
}

/// Extracts the host name from a URL without a URL parser.
pub fn extract_host(url: &str) -> (r: String)
    ensures
        r@ == host_of(url@),
{
    let all = chars_of(url);
    let (lo, hi) = trim_bounds(all.as_slice());
    let trimmed = string_of_range(all.as_slice(), lo, hi);
    let s = chars_of(trimmed.as_str());
    let sep = chars_of("://");
    let start: usize = match find_from(s.as_slice(), sep.as_slice(), 0) {
        Some(i) => {
            proof {
                crate::text::lemma_first_occurrence_bound(s@, sep@, 0);
                reveal_strlit("://");
            }
            i + 3
        },
        None => 0,
    };
    assert(s@.skip(0) == s@);
    let after = string_of_range(s.as_slice(), start, s.len());
    let ac = chars_of(after.as_str());
    let slash = index_or_len_exec(ac.as_slice(), '/', 0);
    assert(ac@.skip(0) == ac@);
    let authority = string_of_range(ac.as_slice(), 0, slash);
    let au = chars_of(authority.as_str());
    let colon = index_or_len_exec(au.as_slice(), ':', 0);
    assert(au@.skip(0) == au@);
    assert(ac@.subrange(0, slash as int) == ac@.take(slash as int));
    assert(au@.subrange(0, colon as int) == au@.take(colon as int));
    assert(s@.subrange(start as int, s@.len() as int) == s@.skip(start as int));
    string_of_range(au.as_slice(), 0, colon)
}

} // verus!
