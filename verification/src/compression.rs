use vstd::prelude::*;

use crate::text::{contains, str_contains};

verus! {

/// The request format a compressor reads a body as.
#[derive(PartialEq, Eq, Structural, Clone, Copy, Debug)]
pub enum CompressFormat {
    Anthropic,
    OpenAiChat,
    OpenAiResponses,
}

/// The request format an endpoint path speaks: Anthropic messages,
/// OpenAI responses, or else OpenAI chat completions.
pub open spec fn format_of(endpoint: Seq<char>) -> CompressFormat {
    if contains(endpoint, "/messages"@) {
        CompressFormat::Anthropic
    } else if contains(endpoint, "/responses"@) {
        CompressFormat::OpenAiResponses
    } else {
        CompressFormat::OpenAiChat
    }
}

/// Reads the request format of an endpoint path.
pub fn endpoint_to_provider(endpoint: &str) -> (r: CompressFormat)
    ensures
        r == format_of(endpoint@),
{
    if str_contains(endpoint, "/messages") {
        CompressFormat::Anthropic
    } else if str_contains(endpoint, "/responses") {
        CompressFormat::OpenAiResponses
    } else {
        CompressFormat::OpenAiChat
    }
}

/// What compressing a request body gave.
pub struct CompressResult {
    pub body: Vec<u8>,
    pub tokens_saved: u64,
    pub bytes_saved: u64,
    pub strategies: Vec<String>,
}

/// What a compressor reported: the new body (when it changed the body),
/// the tokens and bytes saved, and the strategies it used.
pub struct CompressOutcome {
    pub body: Option<Vec<u8>>,
    pub tokens_saved: u64,
    pub bytes_saved: u64,
    pub strategies: Vec<String>,
}

/// A copy of a byte slice.
fn copy_bytes(b: &[u8]) -> (r: Vec<u8>)
    ensures
        r@ == b@,
{
    let mut r: Vec<u8> = Vec::new();
    let mut i: usize = 0;
    while i < b.len()
        invariant
            i <= b@.len(),
            r@ == b@.take(i as int),
        decreases b@.len() - i,
    {
        r.push(b[i]);
        assert(b@.take(i + 1) =~= b@.take(i as int).push(b@[i as int]));
        i = i + 1;
    }
    assert(b@.take(b@.len() as int) =~= b@);
    r
}

/// The result handed on after compressing: the compressor's body (or the
/// original when it left the body alone) with its savings; when the
/// compressor failed, the original body with no savings.
pub fn compression_result(original: &[u8], outcome: Option<CompressOutcome>) -> (r: CompressResult)
    ensures
        match outcome {
            Some(o) => r.body@ == match o.body {
                Some(b) => b@,
                None => original@,
            } && r.tokens_saved == o.tokens_saved && r.bytes_saved == o.bytes_saved && r.strategies@
                == o.strategies@,
            None => r.body@ == original@ && r.tokens_saved == 0 && r.bytes_saved == 0 && r.strategies@.len() == 0,
        },
{
    match outcome {
        Some(o) => {
            let body = match o.body {
                Some(b) => b,
                None => copy_bytes(original),
            };
            CompressResult { body, tokens_saved: o.tokens_saved, bytes_saved: o.bytes_saved, strategies: o.strategies }
        },
        None => CompressResult { body: copy_bytes(original), tokens_saved: 0, bytes_saved: 0, strategies: Vec::new() },
    }
}

} // verus!
