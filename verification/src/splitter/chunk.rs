//! The chunk, the splitter capability, and why splitting can fail.

use crate::parser::Page;
use vstd::prelude::*;

verus! {

/// A bounded span of text cut from one page.
#[derive(Debug, Clone)]
pub struct Chunk {
    /// Freshly generated for each chunk.
    pub id: String,
    /// Number of the page the text was cut from.
    pub page_num: u32,
    pub text: String,
    pub token_count: usize,
    pub char_count: usize,
}

/// What a chunk holds besides its identifier.
pub struct ChunkContent {
    pub page_num: u32,
    pub text: Seq<char>,
    pub token_count: nat,
    pub char_count: nat,
}

impl View for Chunk {
    type V = ChunkContent;

    open spec fn view(&self) -> ChunkContent {
        ChunkContent {
            page_num: self.page_num,
            text: self.text@,
            token_count: self.token_count as nat,
            char_count: self.char_count as nat,
        }
    }
}

/// The contents of a sequence of chunks, in order.
pub open spec fn contents(chunks: Seq<Chunk>) -> Seq<ChunkContent> {
    Seq::new(chunks.len(), |i: int| chunks[i]@)
}

/// The ways in which configuring or running a splitter fails.
pub enum SplitFault {
    /// The token budget is zero.
    ZeroMaxTokens,
    /// The tokenizer reported an error on some text.
    Tokenizer,
    /// A running token total does not fit in `usize`.
    TokenOverflow,
}

/// Why a splitter could not be made, or could not split.
#[derive(Debug, Clone)]
pub enum SplitError {
    /// The token budget is zero.
    ZeroMaxTokens,
    /// The tokenizer reported an error; its message is kept.
    Tokenizer(String),
    /// A running token total does not fit in `usize`.
    TokenOverflow,
}

impl SplitError {
    /// Which way of failing this is.
    pub open spec fn fault(self) -> SplitFault {
        match self {
            SplitError::ZeroMaxTokens => SplitFault::ZeroMaxTokens,
            SplitError::Tokenizer(_) => SplitFault::Tokenizer,
            SplitError::TokenOverflow => SplitFault::TokenOverflow,
        }
    }

    /// The words that introduce the message.
    pub open spec fn heading(self) -> Seq<char> {
        match self {
            SplitError::ZeroMaxTokens => "max_tokens must be positive"@,
            SplitError::Tokenizer(_) => "Tokenizer error: "@,
            SplitError::TokenOverflow => "Token total exceeds the machine word"@,
        }
    }

    /// The human-readable message.
    pub fn message(&self) -> (text: String)
        ensures
            text@ == match *self {
                SplitError::Tokenizer(m) => self.heading() + m@,
                _ => self.heading(),
            },
    {
        match self {
            SplitError::ZeroMaxTokens => String::from_str("max_tokens must be positive"),
            SplitError::Tokenizer(m) => {
                let mut text = String::from_str("Tokenizer error: ");
                text.append(m.as_str());
                text
            },
            SplitError::TokenOverflow => String::from_str("Token total exceeds the machine word"),
        }
    }
}

/// The capability of cutting the pages of a document into chunks.
pub trait TextSplitter {
    /// The chunks of `pages`, in page order. Each chunk carries the number
    /// of one of the pages.
    fn split(&self, pages: &[Page]) -> (result: Result<Vec<Chunk>, SplitError>)
        ensures
            result matches Ok(chunks) ==> forall|i: int|
                0 <= i < chunks@.len() ==> exists|p: int|
                    0 <= p < pages@.len() && (#[trigger] pages@[p]).page_num == (
                    #[trigger] chunks@[i]).page_num,
    ;
}

} // verus!
