use agentbox::queries::{
    arxiv_query_url, baidu_search_url, bing_search_url, crossref_query_url, jina_reader_url, openalex_query_url,
    skills_search_url,
};

#[test]
fn bing_url_encodes_the_query() {
    assert_eq!(bing_search_url("rust verus"), "https://www.bing.com/search?q=rust%20verus&count=10");
    assert_eq!(bing_search_url("a&b=c"), "https://www.bing.com/search?q=a%26b%3Dc&count=10");
}

#[test]
fn unreserved_characters_stay_as_they_are() {
    assert_eq!(baidu_search_url("A-z_0.9~"), "https://www.baidu.com/s?tn=json&wd=A-z_0.9~&rn=10");
}

#[test]
fn non_ascii_text_is_encoded_by_bytes() {
    assert_eq!(arxiv_query_url("é"), "http://export.arxiv.org/api/query?search_query=all:%C3%A9&max_results=5");
    assert_eq!(crossref_query_url("深度"), "https://api.crossref.org/works?query=%E6%B7%B1%E5%BA%A6&rows=5");
}

#[test]
fn openalex_and_jina_addresses() {
    assert_eq!(openalex_query_url("x/y"), "https://api.openalex.org/works?search=x%2Fy&per_page=5");
    assert_eq!(jina_reader_url("https://example.com/a"), "https://r.jina.ai/https://example.com/a");
}

#[test]
fn skills_search_carries_paging() {
    assert_eq!(skills_search_url("pdf tools", 20, 40), "https://skills.sh/api/search?q=pdf%20tools&limit=20&offset=40");
    assert_eq!(skills_search_url("", 0, 0), "https://skills.sh/api/search?q=&limit=0&offset=0");
}
