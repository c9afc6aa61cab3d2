//! The data model shared by all parsers, and the parser capability itself.

use vstd::prelude::*;

verus! {

/// Why a document could not be turned into pages.
#[derive(Debug, Clone)]
pub enum ParserError {
    /// The byte source could not be read.
    Io(String),
    /// The PDF container could not be opened, or held no usable text.
    PdfParse(String),
    /// The document is malformed, or held no usable text.
    ParseError(String),
    /// No parser handles this extension or MIME type.
    UnsupportedFormat(String),
    /// The remote backend answered with a failure status or a malformed body.
    RemoteProtocol(String),
    /// The remote backend did not finish within the polling budget.
    RemoteTimeout(String),
}

impl ParserError {
    /// The detail carried by the error.
    pub open spec fn detail(self) -> Seq<char> {
        match self {
            ParserError::Io(m) => m@,
            ParserError::PdfParse(m) => m@,
            ParserError::ParseError(m) => m@,
            ParserError::UnsupportedFormat(m) => m@,
            ParserError::RemoteProtocol(m) => m@,
            ParserError::RemoteTimeout(m) => m@,
        }
    }

    /// The words that introduce the detail in the printed message.
    pub open spec fn heading(self) -> Seq<char> {
        match self {
            ParserError::Io(_) => "IO error: "@,
            ParserError::PdfParse(_) => "PDF parsing error: "@,
            ParserError::ParseError(_) => "Parse error: "@,
            ParserError::UnsupportedFormat(_) => "Unsupported format: "@,
            ParserError::RemoteProtocol(_) => "Remote protocol error: "@,
            ParserError::RemoteTimeout(_) => "Remote timeout: "@,
        }
    }

    /// The human-readable message: the heading followed by the detail.
    pub fn message(&self) -> (text: String)
        ensures
            text@ == self.heading() + self.detail(),
    {
        let (heading, detail) = match self {
            ParserError::Io(m) => ("IO error: ", m),
            ParserError::PdfParse(m) => ("PDF parsing error: ", m),
            ParserError::ParseError(m) => ("Parse error: ", m),
            ParserError::UnsupportedFormat(m) => ("Unsupported format: ", m),
            ParserError::RemoteProtocol(m) => ("Remote protocol error: ", m),
            ParserError::RemoteTimeout(m) => ("Remote timeout: ", m),
        };
        let mut text = String::from_str(heading);
        text.append(detail.as_str());
        text
    }
}

/// An image found on a page.
#[derive(Debug, Clone)]
pub struct Image {
    pub id: String,
    pub data: Vec<u8>,
    pub content_type: String,
}

/// A unit of extracted text with its 1-based position in the document.
#[derive(Debug, Clone)]
pub struct Page {
    pub page_num: u32,
    pub text: String,
    pub images: Vec<Image>,
}

impl Page {
    /// A page without images.
    pub fn new(page_num: u32, text: String) -> (page: Page)
        ensures
            page.holds(page_num, text@),
            page.text == text,
    {
        Page { page_num, text, images: Vec::new() }
    }

    /// The page has this number and this text, and no images.
    pub open spec fn holds(self, page_num: u32, text: Seq<char>) -> bool {
        &&& self.page_num == page_num
        &&& self.text@ == text
        &&& self.images@.len() == 0
    }
}

/// `pages` are numbered 1, 2, 3, and so on, hold `texts` in order, and have
/// no images.
pub open spec fn numbered_from_one(pages: Seq<Page>, texts: Seq<Seq<char>>) -> bool {
    &&& pages.len() == texts.len()
    &&& forall|i: int| 0 <= i < pages.len() ==> (#[trigger] pages[i]).holds((i + 1) as u32, texts[i])
}

/// One page for each of `texts`, numbered from 1.
pub fn number_pages(texts: Vec<String>) -> (pages: Vec<Page>)
    requires
        texts@.len() <= u32::MAX,
    ensures
        numbered_from_one(pages@, crate::text::texts(texts@)),
        pages_in_order(pages@),
{
    let n = texts.len();
    let ghost all = crate::text::texts(texts@);
    let mut pages: Vec<Page> = Vec::new();
    let mut texts = texts;
    let mut i: usize = 0;
    while i < n
        invariant
            i <= n <= u32::MAX,
            texts@.len() == n,
            all.len() == n,
            pages@.len() == i,
            forall|k: int| i <= k < n ==> (#[trigger] texts@[k])@ == all[k],
            forall|k: int| 0 <= k < i ==> (#[trigger] pages@[k]).holds((k + 1) as u32, all[k]),
        decreases n - i,
    {
        let mut text = String::new();
        std::mem::swap(&mut text, &mut texts[i]);
        pages.push(Page::new((i + 1) as u32, text));
        i += 1;
    }
    pages
}

/// Page numbers start at 1 or above and never decrease along the sequence.
pub open spec fn pages_in_order(pages: Seq<Page>) -> bool {
    &&& forall|i: int| 0 <= i < pages.len() ==> (#[trigger] pages[i]).page_num >= 1
    &&& forall|i: int, j: int|
        0 <= i <= j < pages.len() ==> (#[trigger] pages[i]).page_num <= (#[trigger] pages[j]).page_num
}

/// The capability every document format offers: pages from a document, and
/// the extensions and MIME types by which a router finds the parser.
pub trait Parser {
    /// What the format's decoder hands to the parser.
    type Document;

    /// The pages of `document`. Success is never empty, and its pages are
    /// numbered from 1 or above in non-decreasing order.
    fn parse(&self, document: &Self::Document) -> (result: Result<Vec<Page>, ParserError>)
        ensures
            result matches Ok(pages) ==> pages@.len() > 0 && pages_in_order(pages@),
    ;

    /// Lower-case file extensions, without the leading dot.
    fn supported_extensions(&self) -> (list: Vec<&'static str>)
        ensures
            list@.len() > 0,
    ;

    /// Canonical MIME type strings.
    fn supported_mime_types(&self) -> (list: Vec<&'static str>)
        ensures
            list@.len() > 0,
    ;
}

} // verus!
