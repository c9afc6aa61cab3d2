//! Splitters: each turns the pages of a document into chunks sized for
//! embedding.

pub mod chunk;
pub mod laws;
pub mod sentence;
pub mod tokens;

pub use chunk::{Chunk, ChunkContent, SplitError, SplitFault, TextSplitter};
pub use sentence::SentenceTextSplitter;

