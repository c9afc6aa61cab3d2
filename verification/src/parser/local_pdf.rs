//! PDF documents: the page count of the container, and the text of the
//! whole document on one page.

use super::traits::{Page, Parser, ParserError, pages_in_order};
use vstd::prelude::*;

verus! {

/// `lopdf::Error`, carried from the loader to the error message.
#[verifier::external_type_specification]
#[verifier::external_body]
pub struct ExPdfError(lopdf::Error);

/// `lopdf::Document::load_mem` and `Document::get_pages`: the number of
/// entries of the page map, or the loader's error. The loader may parse on
/// several threads, and what it finds in a damaged file can depend on
/// their timing, so nothing is claimed of the result.
#[verifier::external_body]
fn pdf_page_count(data: &[u8]) -> Result<usize, lopdf::Error> {
    lopdf::Document::load_mem(data).map(|document| document.get_pages().len())
}

/// The `Display` text of a `lopdf::Error`. Nothing is claimed of it.
#[verifier::external_body]
fn pdf_error_text(error: &lopdf::Error) -> String {
    error.to_string()
}

/// What the PDF decoder hands over: the page count of the container and
/// the text extracted from the whole document.
#[derive(Debug, Clone)]
pub struct PdfDocument {
    pub page_count: usize,
    pub text: String,
}

/// Parser for PDF documents.
pub struct LocalPdfParser;

impl LocalPdfParser {
    pub fn new() -> (parser: Self) {
        LocalPdfParser
    }

    /// What the loader's answer means: the page count where the container
    /// was loaded and has pages; a failure with the loader's message where
    /// it was not loaded, and a failure where it has no pages.
    pub fn page_count(&self, loaded: Result<usize, String>) -> (result: Result<
        usize,
        ParserError,
    >)
        ensures
            result is Ok <==> (loaded matches Ok(n) && n > 0),
            result matches Ok(n) ==> loaded == Ok::<usize, String>(n),
            result matches Err(e) ==> e is PdfParse && e.detail() == (match loaded {
                Err(message) => message@,
                Ok(_) => "No pages found in PDF"@,
            }),
    {
        match loaded {
            Err(message) => Err(ParserError::PdfParse(message)),
            Ok(count) => {
                if count == 0 {
                    Err(ParserError::PdfParse(String::from_str("No pages found in PDF")))
                } else {
                    Ok(count)
                }
            },
        }
    }

    /// Opens the container in `data` and returns its page count, as
    /// `page_count` says of what the loader found. A count is never zero.
    pub fn open(&self, data: &[u8]) -> (result: Result<usize, ParserError>)
        ensures
            result matches Ok(n) ==> n > 0,
            result matches Err(e) ==> e is PdfParse,
    {
        let loaded = match pdf_page_count(data) {
            Ok(count) => Ok(count),
            Err(error) => Err(pdf_error_text(&error)),
        };
        self.page_count(loaded)
    }
}

impl Default for LocalPdfParser {
    fn default() -> (parser: Self) {
        LocalPdfParser::new()
    }
}

impl Parser for LocalPdfParser {
    type Document = PdfDocument;

    /// The one page of a PDF document: all of its text, as page 1. Fails
    /// where the container has no pages, and where no text was extracted.
    fn parse(&self, document: &PdfDocument) -> (result: Result<Vec<Page>, ParserError>)
        ensures
            result is Ok <==> document.page_count > 0 && document.text@.len() > 0,
            result matches Ok(pages) ==> pages@.len() == 1 && pages@[0].holds(1, document.text@)
                && pages_in_order(pages@),
            result matches Err(e) ==> e is PdfParse && e.detail() == (if document.page_count
                == 0 {
                "No pages found in PDF"@
            } else {
                "No text content found in PDF"@
            }),
    {
        if document.page_count == 0 {
            return Err(ParserError::PdfParse(String::from_str("No pages found in PDF")));
        }
        if document.text.as_str().is_empty() {
            return Err(ParserError::PdfParse(String::from_str("No text content found in PDF")));
        }
        let mut pages: Vec<Page> = Vec::new();
        pages.push(Page::new(1, document.text.clone()));
        Ok(pages)
    }

    fn supported_extensions(&self) -> (list: Vec<&'static str>)
        ensures
            list@.len() == 1,
            list@[0]@ == "pdf"@,
    {
        let mut list: Vec<&'static str> = Vec::new();
        list.push("pdf");
        list
    }

    fn supported_mime_types(&self) -> (list: Vec<&'static str>)
        ensures
            list@.len() == 1,
            list@[0]@ == "application/pdf"@,
    {
        let mut list: Vec<&'static str> = Vec::new();
        list.push("application/pdf");
        list
    }
}

} // verus!
