//! The token counter: how many tokens of the `cl100k_base` vocabulary a
//! text encodes to.

use super::chunk::SplitError;
use vstd::prelude::*;

verus! {

/// `tiktoken_rs::EncodeError`, carried from the encoder to the error message.
#[verifier::external_type_specification]
#[verifier::external_body]
pub struct ExEncodeError(tiktoken_rs::EncodeError);

/// The number of tokens that the `cl100k_base` encoder of `tiktoken_rs`
/// yields for `text` with all special tokens allowed, or `None` where the
/// encoder reports an error.
pub uninterp spec fn encoded_count(text: Seq<char>) -> Option<nat>;

/// The token count of a text: 0 for the empty text, in which the encoder
/// finds no piece to encode; otherwise what the encoder yields.
pub open spec fn token_count(text: Seq<char>) -> Option<nat> {
    if text.len() == 0 {
        Some(0nat)
    } else {
        encoded_count(text)
    }
}

/// `tiktoken_rs::cl100k_base_singleton` and `CoreBPE::encode` with the
/// encoder's own special tokens allowed: the length of the token sequence,
/// or the encoder's error. The vocabulary is built once per process and
/// shared. The result depends on `text` alone; for the empty text it is an
/// empty sequence.
#[verifier::external_body]
fn encoded_length(text: &str) -> (result: Result<usize, tiktoken_rs::EncodeError>)
    ensures
        result matches Ok(n) ==> (if text@.len() == 0 {
            n == 0
        } else {
            encoded_count(text@) == Some(n as nat)
        }),
        result is Err ==> text@.len() > 0 && encoded_count(text@) is None,
{
    let bpe = tiktoken_rs::cl100k_base_singleton();
    bpe.encode(text, &bpe.special_tokens()).map(|(tokens, _)| tokens.len())
}

/// The `message` field of a `tiktoken_rs::EncodeError`. Nothing is claimed
/// of it.
#[verifier::external_body]
fn encode_error_text(error: &tiktoken_rs::EncodeError) -> String {
    error.message.clone()
}

/// The number of tokens in `text`. Fails exactly where the tokenizer does.
pub fn count_tokens(text: &str) -> (result: Result<usize, SplitError>)
    ensures
        result matches Ok(n) ==> token_count(text@) == Some(n as nat),
        result matches Err(e) ==> token_count(text@) is None && e is Tokenizer,
{
    match encoded_length(text) {
        Ok(n) => Ok(n),
        Err(error) => Err(SplitError::Tokenizer(encode_error_text(&error))),
    }
}

} // verus!
