//! HTML documents: the visible text of the document tree, cut into pages of
//! a fixed number of characters.

use super::traits::{Page, Parser, ParserError, pages_in_order};
use crate::text::{same_text, substring, to_chars, trim, trimmed};
use vstd::prelude::*;
use vstd::utf8::{decode_utf8, valid_utf8};

verus! {

/// Characters per page.
pub const PAGE_CHARS: usize = 2000;

/// One node of a parsed document tree, as far as text extraction reads it.
#[derive(Debug, Clone)]
pub enum HtmlNode {
    /// A text node, with the tag name of the element that holds it, if an
    /// element does.
    Text { content: String, parent: Option<String> },
    /// Any other node.
    Other,
}

/// What an `HtmlNode` holds, over character sequences.
pub enum HtmlNodeView {
    Text { content: Seq<char>, parent: Option<Seq<char>> },
    Other,
}

impl View for HtmlNode {
    type V = HtmlNodeView;

    open spec fn view(&self) -> HtmlNodeView {
        match self {
            HtmlNode::Text { content, parent } => HtmlNodeView::Text {
                content: content@,
                parent: match parent {
                    Some(tag) => Some(tag@),
                    None => None,
                },
            },
            HtmlNode::Other => HtmlNodeView::Other,
        }
    }
}

/// The views of a sequence of nodes.
pub open spec fn node_views(nodes: Seq<HtmlNode>) -> Seq<HtmlNodeView> {
    Seq::new(nodes.len(), |i: int| nodes[i]@)
}

/// The nodes of the tree that `scraper` builds for `html` read as a whole
/// document, in the order in which the tree stores them.
pub uninterp spec fn document_nodes_of(html: Seq<char>) -> Seq<HtmlNodeView>;

/// The nodes of the tree that `scraper` builds for `markup` read as a
/// fragment, in the order in which the tree stores them.
pub uninterp spec fn fragment_nodes_of(markup: Seq<char>) -> Seq<HtmlNodeView>;

/// The serialised first element of `html`, read as a whole document, that
/// the CSS selector `selector` matches: `Ok(None)` where none matches,
/// `Err` with the selector parser's complaint where it refuses `selector`.
pub uninterp spec fn first_match_of(html: Seq<char>, selector: Seq<char>) -> Result<
    Option<Seq<char>>,
    Seq<char>,
>;

/// `std::str::Utf8Error`, carried from the decoder to the error message.
#[verifier::external_type_specification]
#[verifier::external_body]
pub struct ExUtf8Error(std::str::Utf8Error);

/// `std::str::from_utf8`: the text that `data` encodes, or an error where
/// `data` is not valid UTF-8.
#[verifier::external_body]
fn decode_text(data: &[u8]) -> (decoded: Result<&str, std::str::Utf8Error>)
    ensures
        decoded is Ok <==> valid_utf8(data@),
        decoded matches Ok(text) ==> text@ == decode_utf8(data@),
{
    std::str::from_utf8(data)
}

/// The `Display` text of a `std::str::Utf8Error`. Nothing is claimed of it.
#[verifier::external_body]
fn utf8_error_text(error: &std::str::Utf8Error) -> String {
    error.to_string()
}

/// `scraper::Html::parse_document` and a walk over `tree.nodes()`: each
/// node of the document tree becomes one `HtmlNode`, in the tree's order. A
/// text node keeps its text and the name of its parent element.
#[verifier::external_body]
fn document_nodes(html: &str) -> (nodes: Vec<HtmlNode>)
    ensures
        node_views(nodes@) == document_nodes_of(html@),
{
    let document = scraper::Html::parse_document(html);
    document.tree.nodes().map(|node| match node.value() {
        scraper::Node::Text(text) => HtmlNode::Text {
            content: text.text.to_string(),
            parent: node.parent().and_then(|p| p.value().as_element().map(|e| e.name().to_string())),
        },
        _ => HtmlNode::Other,
    }).collect()
}

/// `scraper::Html::parse_fragment` and a walk over `tree.nodes()`: each
/// node of the fragment tree becomes one `HtmlNode`, in the tree's order. A
/// text node keeps its text and the name of its parent element.
#[verifier::external_body]
fn fragment_nodes(markup: &str) -> (nodes: Vec<HtmlNode>)
    ensures
        node_views(nodes@) == fragment_nodes_of(markup@),
{
    let fragment = scraper::Html::parse_fragment(markup);
    fragment.tree.nodes().map(|node| match node.value() {
        scraper::Node::Text(text) => HtmlNode::Text {
            content: text.text.to_string(),
            parent: node.parent().and_then(|p| p.value().as_element().map(|e| e.name().to_string())),
        },
        _ => HtmlNode::Other,
    }).collect()
}

/// `scraper::Selector::parse`, `scraper::Html::parse_document` and
/// `Html::select`: the first element that the selector matches, serialised
/// by `ElementRef::html`; `Ok(None)` where none matches; `Err` with the
/// `Debug` text of the selector parser's error where it refuses `selector`.
#[verifier::external_body]
fn first_match(html: &str, selector: &str) -> (found: Result<Option<String>, String>)
    ensures
        match_view(found) == first_match_of(html@, selector@),
{
    let selector = scraper::Selector::parse(selector).map_err(|e| format!("{:?}", e))?;
    let document = scraper::Html::parse_document(html);
    Ok(document.select(&selector).next().map(|element| element.html()))
}

/// What `first_match` returned, over character sequences.
pub open spec fn match_view(found: Result<Option<String>, String>) -> Result<
    Option<Seq<char>>,
    Seq<char>,
> {
    match found {
        Ok(Some(markup)) => Ok(Some(markup@)),
        Ok(None) => Ok(None),
        Err(complaint) => Err(complaint@),
    }
}

/// Text inside `script` and `style` elements is not shown.
pub open spec fn is_hidden(parent: Option<Seq<char>>) -> bool {
    parent == Some("script"@) || parent == Some("style"@)
}

/// What one node adds to the gathered text: its trimmed text and a space,
/// where the node is a shown text node that is not blank.
pub open spec fn node_piece(node: HtmlNodeView) -> Seq<char> {
    match node {
        HtmlNodeView::Text { content, parent } => if !is_hidden(parent) && trimmed(content).len()
            > 0 {
            trimmed(content).push(' ')
        } else {
            Seq::empty()
        },
        HtmlNodeView::Other => Seq::empty(),
    }
}

/// The pieces of all nodes, in order.
pub open spec fn gathered(nodes: Seq<HtmlNodeView>) -> Seq<char>
    decreases nodes.len(),
{
    if nodes.len() == 0 {
        Seq::empty()
    } else {
        gathered(nodes.drop_last()) + node_piece(nodes.last())
    }
}

/// The visible text of a tree: the shown, non-blank text nodes, each
/// trimmed, separated by single spaces.
pub open spec fn visible_text_of(nodes: Seq<HtmlNodeView>) -> Seq<char> {
    trimmed(gathered(nodes))
}

/// The visible text of the nodes of a tree.
pub fn visible_text(nodes: &Vec<HtmlNode>) -> (text: String)
    ensures
        text@ == visible_text_of(node_views(nodes@)),
{
    let mut gathered_text = String::new();
    let n = nodes.len();
    let mut i: usize = 0;
    while i < n
        invariant
            i <= n == nodes.len(),
            gathered_text@ == gathered(node_views(nodes@).take(i as int)),
        decreases n - i,
    {
        proof {
            let next = node_views(nodes@).take(i + 1);
            assert(next.drop_last() =~= node_views(nodes@).take(i as int));
            assert(next.last() == nodes@[i as int]@);
        }
        match &nodes[i] {
            HtmlNode::Text { content, parent } => {
                let hidden = match parent {
                    Some(tag) => same_text(tag.as_str(), "script") || same_text(
                        tag.as_str(),
                        "style",
                    ),
                    None => false,
                };
                if !hidden {
                    let shown = trim(content.as_str());
                    if !shown.as_str().is_empty() {
                        gathered_text.append(shown.as_str());
                        gathered_text.push(' ');
                    }
                }
            },
            HtmlNode::Other => {},
        }
        i += 1;
    }
    assert(node_views(nodes@).take(n as int) =~= node_views(nodes@));
    trim(gathered_text.as_str())
}

/// Number of pages that a text of `len` characters fills.
pub open spec fn window_count(len: nat) -> nat {
    ((len + PAGE_CHARS - 1) / (PAGE_CHARS as int)) as nat
}

/// The `i`-th run of `PAGE_CHARS` characters of `text`; the last run may be
/// shorter.
pub open spec fn window(text: Seq<char>, i: int) -> Seq<char> {
    let end = if (i + 1) * PAGE_CHARS <= text.len() {
        (i + 1) * PAGE_CHARS
    } else {
        text.len() as int
    };
    text.subrange(i * PAGE_CHARS, end)
}

/// `pages` are the windows of `text`, numbered from 1, without images.
pub open spec fn is_windowed(text: Seq<char>, pages: Seq<Page>) -> bool {
    &&& pages.len() == window_count(text.len())
    &&& forall|i: int|
        0 <= i < pages.len() ==> (#[trigger] pages[i]).holds((i + 1) as u32, window(text, i))
}

/// Cuts `text` into pages of `PAGE_CHARS` characters, numbered from 1.
/// Fails only where the pages would outnumber `u32::MAX`.
pub fn paginate(text: &str) -> (result: Result<Vec<Page>, ParserError>)
    ensures
        result is Ok <==> window_count(text@.len()) <= u32::MAX,
        result matches Ok(pages) ==> is_windowed(text@, pages@) && pages_in_order(pages@),
        result matches Err(e) ==> e matches ParserError::ParseError(m) && m@
            == "Too many pages in HTML"@,
{
    let chars = to_chars(text);
    let n = chars.len();
    let count: usize = if n % PAGE_CHARS == 0 {
        n / PAGE_CHARS
    } else {
        n / PAGE_CHARS + 1
    };
    assert(count == window_count(text@.len()));
    if count > u32::MAX as usize {
        return Err(ParserError::ParseError(String::from_str("Too many pages in HTML")));
    }
    let mut pages: Vec<Page> = Vec::new();
    let mut i: usize = 0;
    while i < count
        invariant
            i <= count <= u32::MAX,
            n == chars.len(),
            chars@ == text@,
            count == window_count(text@.len()),
            pages.len() == i,
            forall|k: int|
                0 <= k < pages.len() ==> (#[trigger] pages@[k]).holds(
                    (k + 1) as u32,
                    window(text@, k),
                ),
        decreases count - i,
    {
        let start = i * PAGE_CHARS;
        let end = if n - start > PAGE_CHARS {
            start + PAGE_CHARS
        } else {
            n
        };
        let page = Page::new((i + 1) as u32, substring(&chars, start, end));
        pages.push(page);
        i += 1;
    }
    Ok(pages)
}

/// The text that is extracted from `html`: the visible text of the `body`
/// element read again as a fragment, or of the whole tree where there is no
/// `body`. `Err` holds the selector parser's complaint.
pub open spec fn extracted_text(html: Seq<char>) -> Result<Seq<char>, Seq<char>> {
    match first_match_of(html, "body"@) {
        Err(complaint) => Err(complaint),
        Ok(Some(markup)) => Ok(visible_text_of(fragment_nodes_of(markup))),
        Ok(None) => Ok(visible_text_of(document_nodes_of(html))),
    }
}

/// Whether `data` is an HTML document with pages: valid UTF-8 whose
/// extracted text is not empty and fills no more than `u32::MAX` pages.
pub open spec fn has_html_pages(data: Seq<u8>) -> bool {
    &&& valid_utf8(data)
    &&& extracted_text(decode_utf8(data)) matches Ok(text)
    &&& text.len() > 0
    &&& window_count(text.len()) <= u32::MAX
}

/// Whether `detail` says why `data` has no pages.
pub open spec fn explains_failure(data: Seq<u8>, detail: Seq<char>) -> bool {
    if !valid_utf8(data) {
        "Invalid UTF-8: "@.is_prefix_of(detail)
    } else {
        match extracted_text(decode_utf8(data)) {
            Err(complaint) => detail == "Invalid selector: "@ + complaint,
            Ok(text) => if text.len() == 0 {
                detail == "No text content found in HTML"@
            } else {
                detail == "Too many pages in HTML"@
            },
        }
    }
}

/// Parser for HTML documents.
pub struct HtmlParser;

impl HtmlParser {
    pub fn new() -> (parser: Self) {
        HtmlParser
    }

    /// The visible text of `html`, without the content of `script` and
    /// `style` elements.
    pub fn extract_text(&self, html: &str) -> (result: Result<String, ParserError>)
        ensures
            result matches Ok(text) ==> extracted_text(html@) == Ok::<Seq<char>, Seq<char>>(text@),
            result matches Err(e) ==> extracted_text(html@) matches Err(complaint) && (e matches ParserError::ParseError(
                m,
            ) && m@ == "Invalid selector: "@ + complaint),
    {
        match first_match(html, "body") {
            Err(complaint) => {
                let mut message = String::from_str("Invalid selector: ");
                message.append(complaint.as_str());
                Err(ParserError::ParseError(message))
            },
            Ok(Some(markup)) => {
                let nodes = fragment_nodes(markup.as_str());
                Ok(visible_text(&nodes))
            },
            Ok(None) => {
                let nodes = document_nodes(html);
                Ok(visible_text(&nodes))
            },
        }
    }
}

impl Parser for HtmlParser {
    type Document = Vec<u8>;

    /// The pages of the HTML document in `document`: its extracted text in
    /// runs of `PAGE_CHARS` characters. Fails where the bytes are not UTF-8,
    /// where no text is found, and where the pages would outnumber
    /// `u32::MAX`.
    fn parse(&self, document: &Vec<u8>) -> (result: Result<Vec<Page>, ParserError>)
        ensures
            result is Ok <==> has_html_pages(document@),
            result matches Ok(pages) ==> is_windowed(
                extracted_text(decode_utf8(document@))->Ok_0,
                pages@,
            ) && pages_in_order(pages@),
            result matches Err(e) ==> e is ParseError && explains_failure(document@, e.detail()),
    {
        let html = match decode_text(document.as_slice()) {
            Ok(html) => html,
            Err(error) => {
                let mut message = String::from_str("Invalid UTF-8: ");
                message.append(utf8_error_text(&error).as_str());
                assert("Invalid UTF-8: "@.is_prefix_of(message@));
                return Err(ParserError::ParseError(message));
            },
        };
        let text = self.extract_text(html)?;
        if text.as_str().is_empty() {
            return Err(
                ParserError::ParseError(String::from_str("No text content found in HTML")),
            );
        }
        let result = paginate(text.as_str());
        proof {
            if result is Ok {
                assert(result->Ok_0@.len() > 0);
            }
        }
        result
    }

    fn supported_extensions(&self) -> (list: Vec<&'static str>)
        ensures
            list@.len() == 2,
            list@[0]@ == "html"@,
            list@[1]@ == "htm"@,
    {
        let mut list: Vec<&'static str> = Vec::new();
        list.push("html");
        list.push("htm");
        list
    }

    fn supported_mime_types(&self) -> (list: Vec<&'static str>)
        ensures
            list@.len() == 1,
            list@[0]@ == "text/html"@,
    {
        let mut list: Vec<&'static str> = Vec::new();
        list.push("text/html");
        list
    }
}

} // verus!
