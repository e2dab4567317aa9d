use vstd::prelude::*;
use vstd::utf8::encode_utf8;

use crate::numfmt::{dec_text, u64_text};
use crate::text::{concat, concat3};

verus! {

/// Whether a byte stands for itself in a URL query: an ASCII digit or
/// letter, or one of `-`, `.`, `_`, `~`.
pub open spec fn unreserved(b: u8) -> bool {
    (48 <= b && b <= 57) || (65 <= b && b <= 90) || (97 <= b && b <= 122) || b == 45 || b == 46 || b == 95
        || b == 126
}

/// The upper-case hexadecimal digit of a value below sixteen.
pub open spec fn hex_digit(d: u8) -> char {
    if d < 10 {
        (48 + d) as char
    } else {
        (55 + d) as char
    }
}

/// Percent-encoding of bytes: unreserved bytes as themselves, every other
/// byte as `%` and two upper-case hexadecimal digits.
pub open spec fn percent_encoded(bytes: Seq<u8>) -> Seq<char>
    decreases bytes.len(),
{
    if bytes.len() == 0 {
        Seq::empty()
    } else {
        let b = bytes.last();
        percent_encoded(bytes.drop_last()) + if unreserved(b) {
            seq![b as char]
        } else {
            seq!['%', hex_digit(b / 16), hex_digit(b % 16)]
        }
    }
}

/// A text as it is written into a URL query: its UTF-8 bytes
/// percent-encoded.
pub open spec fn query_text(s: Seq<char>) -> Seq<char> {
    percent_encoded(encode_utf8(s))
}

/// Calls `urlencoding::encode`, which percent-encodes every byte of the
/// text's UTF-8 form except ASCII letters, digits and `-`, `.`, `_`, `~`,
/// writing the hexadecimal digits in upper case.
#[verifier::external_body]
fn url_encode(s: &str) -> (r: String)
    ensures
        r@ == query_text(s@),
{
    urlencoding::encode(s).into_owned()
}

/// The Bing result page for a query, ten hits.
pub fn bing_search_url(query: &str) -> (r: String)
    ensures
        r@ == "https://www.bing.com/search?q="@ + query_text(query@) + "&count=10"@,
{
    concat3("https://www.bing.com/search?q=", url_encode(query).as_str(), "&count=10")
}

/// The Baidu result page in JSON form for a query, ten hits.
pub fn baidu_search_url(query: &str) -> (r: String)
    ensures
        r@ == "https://www.baidu.com/s?tn=json&wd="@ + query_text(query@) + "&rn=10"@,
{
    concat3("https://www.baidu.com/s?tn=json&wd=", url_encode(query).as_str(), "&rn=10")
}

/// The arXiv query for a text in all fields, five papers.
pub fn arxiv_query_url(query: &str) -> (r: String)
    ensures
        r@ == "http://export.arxiv.org/api/query?search_query=all:"@ + query_text(query@) + "&max_results=5"@,
{
    concat3("http://export.arxiv.org/api/query?search_query=all:", url_encode(query).as_str(), "&max_results=5")
}

/// The Crossref works query, five papers.
pub fn crossref_query_url(query: &str) -> (r: String)
    ensures
        r@ == "https://api.crossref.org/works?query="@ + query_text(query@) + "&rows=5"@,
{
    concat3("https://api.crossref.org/works?query=", url_encode(query).as_str(), "&rows=5")
}

/// The OpenAlex works search, five papers.
pub fn openalex_query_url(query: &str) -> (r: String)
    ensures
        r@ == "https://api.openalex.org/works?search="@ + query_text(query@) + "&per_page=5"@,
{
    concat3("https://api.openalex.org/works?search=", url_encode(query).as_str(), "&per_page=5")
}

/// The Jina reader address of a page.
pub fn jina_reader_url(url: &str) -> (r: String)
    ensures
        r@ == "https://r.jina.ai/"@ + url@,
{
    concat("https://r.jina.ai/", url)
}

/// The skills.sh catalogue search for a query, with a page size and an
/// offset.
pub fn skills_search_url(query: &str, limit: usize, offset: usize) -> (r: String)
    ensures
        r@ == "https://skills.sh/api/search?q="@ + query_text(query@) + "&limit="@ + dec_text(limit as nat) + "&offset="@
            + dec_text(offset as nat),
{
    let mut r = concat3("https://skills.sh/api/search?q=", url_encode(query).as_str(), "&limit=");
    r.push_str(u64_text(limit as u64).as_str());
    r.push_str("&offset=");
    r.push_str(u64_text(offset as u64).as_str());
    r
}

} // verus!
