//! Document ingestion: page extraction from several document formats and
//! token-bounded, sentence-respecting chunking of the extracted text.

pub mod parser;
pub mod service;
pub mod splitter;
pub mod text;
