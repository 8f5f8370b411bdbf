//! The cl100k_base tokenizer of `tiktoken-rs`, as the chunking logic sees it.

use vstd::prelude::*;
use crate::text::byte_len;

verus! {

/// The token ranks that `tiktoken_rs`'s cl100k_base encoding gives for a
/// text (`CoreBPE::encode` with every special token allowed), or `None`
/// where the encoder reports an error on the text (its regex engine gives
/// up: a backtrack or stack limit, both counted, so the outcome is a
/// function of the text).
pub uninterp spec fn cl100k_tokens(text: Seq<char>) -> Option<Seq<u32>>;

/// The text that cl100k_base's `CoreBPE::decode` gives for a token sequence,
/// or `None` where it fails (unknown rank, or bytes that are not UTF-8).
pub uninterp spec fn cl100k_text(tokens: Seq<u32>) -> Option<Seq<char>>;

/// Encodes `text` with the shared cl100k_base tokenizer
/// (`tiktoken_rs::cl100k_base_singleton()`, then `CoreBPE::encode` with the
/// encoding's special tokens allowed, which is what
/// `encode_with_special_tokens` does before it unwraps). Claimed: `Some`
/// exactly when the encoder succeeds, holding `cl100k_tokens(text)`; every
/// token stands for at least one byte of the text (a regex piece is cut into
/// non-empty byte ranges, a special token is one token for its bytes), so
/// there are at most as many tokens as UTF-8 bytes; and decoding the tokens
/// gives the text back (`decode` joins the tokens' bytes, which are the
/// text's bytes in order, and those are valid UTF-8). Left unsaid: the
/// singleton is built once, on first use, from the encoding data bundled in
/// the crate, and that construction unwraps; it does not depend on any
/// argument, so no `requires` can exclude it.
#[verifier::external_body]
pub(crate) fn encode_cl100k(text: &str) -> (tokens: Option<Vec<u32>>)
    ensures
        match tokens {
            Some(t) => cl100k_tokens(text@) == Some(t@) && t@.len() <= byte_len(text@)
                && cl100k_text(t@) == Some(text@),
            None => cl100k_tokens(text@) is None,
        },
{
    let bpe = tiktoken_rs::cl100k_base_singleton();
    match bpe.encode(text, &bpe.special_tokens()) {
        Ok((ranks, _)) => Some(ranks),
        Err(_) => None,
    }
}

/// Decodes tokens with the shared cl100k_base tokenizer
/// (`tiktoken_rs::cl100k_base_singleton()`, then `CoreBPE::decode`).
/// Claimed: `Some` exactly when the decode succeeds, holding
/// `cl100k_text(tokens)`.
#[verifier::external_body]
pub(crate) fn decode_cl100k(tokens: &[u32]) -> (text: Option<String>)
    ensures
        match text {
            Some(s) => cl100k_text(tokens@) == Some(s@),
            None => cl100k_text(tokens@) is None,
        },
{
    tiktoken_rs::cl100k_base_singleton().decode(tokens).ok()
}

} // verus!
