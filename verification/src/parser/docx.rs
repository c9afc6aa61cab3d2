//! DOCX documents: the text of the body's paragraphs, gathered into pages
//! of about `PAGE_CHARS` characters.

use super::traits::{Page, Parser, ParserError, number_pages, numbered_from_one, pages_in_order};
use crate::text::{texts, trim, trimmed};
use vstd::prelude::*;

verus! {

/// Buffer length above which a page is flushed.
pub const PAGE_CHARS: usize = 2000;

/// A child of a run, as far as text extraction reads it.
#[derive(Debug, Clone)]
pub enum RunChild {
    /// A piece of text.
    Text(String),
    /// Anything else: a tab, a break, a drawing.
    Other,
}

/// A child of a paragraph, as far as text extraction reads it.
#[derive(Debug, Clone)]
pub enum ParagraphChild {
    /// A run, with its children in order.
    Run(Vec<RunChild>),
    /// Anything else: a hyperlink, a bookmark, an insertion.
    Other,
}

/// A child of the document body, as far as text extraction reads it.
#[derive(Debug, Clone)]
pub enum DocumentChild {
    /// A paragraph, with its children in order.
    Paragraph(Vec<ParagraphChild>),
    /// Anything else: a table, a section, a bookmark.
    Other,
}

/// The text pieces of a run, concatenated.
pub open spec fn run_text(children: Seq<RunChild>) -> Seq<char>
    decreases children.len(),
{
    if children.len() == 0 {
        Seq::empty()
    } else {
        run_text(children.drop_last()) + (match children.last() {
            RunChild::Text(text) => text@,
            RunChild::Other => Seq::empty(),
        })
    }
}

/// The texts of the runs of a paragraph, concatenated.
pub open spec fn paragraph_text(children: Seq<ParagraphChild>) -> Seq<char>
    decreases children.len(),
{
    if children.len() == 0 {
        Seq::empty()
    } else {
        paragraph_text(children.drop_last()) + (match children.last() {
            ParagraphChild::Run(run) => run_text(run@),
            ParagraphChild::Other => Seq::empty(),
        })
    }
}

/// The buffer after a body child: a paragraph with text adds its text and a
/// newline.
pub open spec fn buffer_with(buffer: Seq<char>, child: DocumentChild) -> Seq<char> {
    match child {
        DocumentChild::Paragraph(paragraph) => {
            let text = paragraph_text(paragraph@);
            if text.len() > 0 {
                buffer + text + seq!['\n']
            } else {
                buffer
            }
        },
        DocumentChild::Other => buffer,
    }
}

/// `flushed` with the buffer as one more page: the buffer trimmed, unless
/// that is empty.
pub open spec fn with_page(flushed: Seq<Seq<char>>, buffer: Seq<char>) -> Seq<Seq<char>> {
    if trimmed(buffer).len() > 0 {
        flushed.push(trimmed(buffer))
    } else {
        flushed
    }
}

/// The page texts after the body children from index `i` on: after each
/// paragraph, a buffer of more than `PAGE_CHARS` characters is flushed as
/// a page and started again; what is left at the end is flushed as the last
/// page. A buffer that is blank gives no page.
pub open spec fn page_texts_from(
    body: Seq<DocumentChild>,
    i: int,
    flushed: Seq<Seq<char>>,
    buffer: Seq<char>,
) -> Seq<Seq<char>>
    decreases body.len() - i,
{
    if i < 0 || i >= body.len() {
        with_page(flushed, buffer)
    } else {
        let grown = buffer_with(buffer, body[i]);
        if body[i] is Paragraph && grown.len() > PAGE_CHARS {
            page_texts_from(body, i + 1, with_page(flushed, grown), Seq::empty())
        } else {
            page_texts_from(body, i + 1, flushed, grown)
        }
    }
}

/// Every text of `pages` has characters.
pub open spec fn all_have_text(pages: Seq<Seq<char>>) -> bool {
    forall|k: int| 0 <= k < pages.len() ==> (#[trigger] pages[k]).len() > 0
}

/// No page text is empty.
pub proof fn lemma_page_texts_have_text(
    body: Seq<DocumentChild>,
    i: int,
    flushed: Seq<Seq<char>>,
    buffer: Seq<char>,
)
    requires
        all_have_text(flushed),
    ensures
        all_have_text(page_texts_from(body, i, flushed, buffer)),
    decreases body.len() - i,
{
    if 0 <= i < body.len() {
        let grown = buffer_with(buffer, body[i]);
        if body[i] is Paragraph && grown.len() > PAGE_CHARS {
            lemma_page_texts_have_text(body, i + 1, with_page(flushed, grown), Seq::empty());
        } else {
            lemma_page_texts_have_text(body, i + 1, flushed, grown);
        }
    }
}

/// The page texts of a document body.
pub open spec fn page_texts(body: Seq<DocumentChild>) -> Seq<Seq<char>> {
    page_texts_from(body, 0, Seq::empty(), Seq::empty())
}

/// Parser for DOCX (Microsoft Word) documents.
pub struct DocxParser;

impl DocxParser {
    pub fn new() -> (parser: Self) {
        DocxParser
    }

    /// Appends the text pieces of a run to `out`.
    pub fn append_run_text(children: &Vec<RunChild>, out: &mut String)
        ensures
            final(out)@ == old(out)@ + run_text(children@),
    {
        let n = children.len();
        let mut i: usize = 0;
        assert(children@.take(0) =~= Seq::<RunChild>::empty());
        assert(old(out)@ + Seq::<char>::empty() =~= old(out)@);
        while i < n
            invariant
                i <= n == children.len(),
                out@ == old(out)@ + run_text(children@.take(i as int)),
            decreases n - i,
        {
            proof {
                let next = children@.take(i + 1);
                assert(next.drop_last() =~= children@.take(i as int));
                assert(next.last() == children@[i as int]);
            }
            let ghost before = out@;
            match &children[i] {
                RunChild::Text(text) => {
                    out.append(text.as_str());
                    assert(out@ =~= old(out)@ + (run_text(children@.take(i as int)) + text@));
                },
                RunChild::Other => {
                    assert(out@ =~= old(out)@ + (run_text(children@.take(i as int))
                        + Seq::<char>::empty()));
                },
            }
            i += 1;
        }
        assert(children@.take(n as int) =~= children@);
    }

    /// The text of a paragraph: the texts of its runs, concatenated.
    pub fn text_of_paragraph(children: &Vec<ParagraphChild>) -> (text: String)
        ensures
            text@ == paragraph_text(children@),
    {
        let n = children.len();
        let mut text = String::new();
        let mut i: usize = 0;
        assert(children@.take(0) =~= Seq::<ParagraphChild>::empty());
        while i < n
            invariant
                i <= n == children.len(),
                text@ == paragraph_text(children@.take(i as int)),
            decreases n - i,
        {
            proof {
                let next = children@.take(i + 1);
                assert(next.drop_last() =~= children@.take(i as int));
                assert(next.last() == children@[i as int]);
            }
            match &children[i] {
                ParagraphChild::Run(run) => {
                    DocxParser::append_run_text(run, &mut text);
                },
                ParagraphChild::Other => {
                    assert(text@ + Seq::<char>::empty() =~= text@);
                },
            }
            i += 1;
        }
        assert(children@.take(n as int) =~= children@);
        text
    }

    /// The page texts of a document body, in order.
    pub fn paginate(body: &Vec<DocumentChild>) -> (pages: Vec<String>)
        ensures
            texts(pages@) == page_texts(body@),
    {
        let n = body.len();
        let mut pages: Vec<String> = Vec::new();
        let mut buffer = String::new();
        let mut i: usize = 0;
        assert(texts(pages@) =~= Seq::<Seq<char>>::empty());
        while i < n
            invariant
                i <= n == body.len(),
                page_texts(body@) == page_texts_from(body@, i as int, texts(pages@), buffer@),
            decreases n - i,
        {
            let ghost before = buffer@;
            let ghost flushed = texts(pages@);
            match &body[i] {
                DocumentChild::Paragraph(paragraph) => {
                    let text = DocxParser::text_of_paragraph(paragraph);
                    if !text.as_str().is_empty() {
                        buffer.append(text.as_str());
                        buffer.push('\n');
                        assert(buffer@ =~= before + text@ + seq!['\n']);
                    }
                    assert(buffer@ == buffer_with(before, body@[i as int]));
                    if buffer.as_str().unicode_len() > PAGE_CHARS {
                        let page = trim(buffer.as_str());
                        if !page.as_str().is_empty() {
                            proof {
                                assert(texts(pages@.push(page)) =~= texts(pages@).push(page@));
                            }
                            pages.push(page);
                        }
                        buffer = String::new();
                    }
                },
                DocumentChild::Other => {
                    assert(buffer@ == buffer_with(before, body@[i as int]));
                },
            }
            assert(page_texts_from(body@, i as int, flushed, before) == page_texts_from(
                body@,
                i + 1,
                texts(pages@),
                buffer@,
            ));
            i += 1;
        }
        let last = trim(buffer.as_str());
        if !last.as_str().is_empty() {
            proof {
                assert(texts(pages@.push(last)) =~= texts(pages@).push(last@));
            }
            pages.push(last);
        }
        pages
    }
}

impl Parser for DocxParser {
    type Document = Vec<DocumentChild>;

    /// The pages of a document body, numbered from 1; each has text. Fails
    /// where the body holds no text but whitespace, and where the pages
    /// would outnumber `u32::MAX`.
    fn parse(&self, document: &Vec<DocumentChild>) -> (result: Result<Vec<Page>, ParserError>)
        ensures
            result is Ok <==> 0 < page_texts(document@).len() <= u32::MAX,
            result matches Ok(pages) ==> numbered_from_one(pages@, page_texts(document@))
                && pages_in_order(pages@) && forall|k: int|
                0 <= k < pages@.len() ==> (#[trigger] pages@[k]).text@.len() > 0,
            result matches Err(e) ==> e is ParseError && e.detail() == (if page_texts(
                document@,
            ).len() == 0 {
                "No text content found in DOCX"@
            } else {
                "Too many pages in DOCX"@
            }),
    {
        let page_texts = DocxParser::paginate(document);
        proof {
            lemma_page_texts_have_text(document@, 0, Seq::empty(), Seq::empty());
        }
        if page_texts.len() == 0 {
            return Err(
                ParserError::ParseError(String::from_str("No text content found in DOCX")),
            );
        }
        if page_texts.len() > u32::MAX as usize {
            return Err(ParserError::ParseError(String::from_str("Too many pages in DOCX")));
        }
        Ok(number_pages(page_texts))
    }

    fn supported_extensions(&self) -> (list: Vec<&'static str>)
        ensures
            list@.len() == 1,
            list@[0]@ == "docx"@,
    {
        let mut list: Vec<&'static str> = Vec::new();
        list.push("docx");
        list
    }

    fn supported_mime_types(&self) -> (list: Vec<&'static str>)
        ensures
            list@.len() == 1,
            list@[0]@
                == "application/vnd.openxmlformats-officedocument.wordprocessingml.document"@,
    {
        let mut list: Vec<&'static str> = Vec::new();
        list.push("application/vnd.openxmlformats-officedocument.wordprocessingml.document");
        list
    }
}

} // verus!
