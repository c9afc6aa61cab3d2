//! Parsers: each turns a document of one format into an ordered sequence of
//! pages.

pub mod azure_doc_intelligence;
pub mod docx;
pub mod html;
pub mod local_pdf;
pub mod traits;

pub use traits::{Image, Page, Parser, ParserError};
