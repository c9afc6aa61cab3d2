//! Remote OCR through Azure Document Intelligence: what to ask of the
//! service, what to do after each answer, and the pages of a completed
//! analysis. The requests themselves are made by the caller.

use super::traits::{Page, Parser, ParserError, pages_in_order};
use crate::text::{trim, trimmed};
use vstd::prelude::*;

verus! {

/// How often the status endpoint is asked before the analysis is given up.
pub const MAX_POLL_ATTEMPTS: u32 = 30;

/// Seconds to wait before each poll.
pub const POLL_INTERVAL_SECS: u64 = 2;

/// One page of a remote analysis.
#[derive(Debug, Clone)]
pub struct AnalyzedPage {
    pub page_number: i32,
    pub lines: Option<Vec<String>>,
}

/// A completed remote analysis.
#[derive(Debug, Clone)]
pub struct DocumentAnalysis {
    pub pages: Option<Vec<AnalyzedPage>>,
    pub content: Option<String>,
}

/// How the submission of a document ended.
pub enum SubmitOutcome {
    /// The request could not be sent; the transport's message.
    Unreachable(String),
    /// The service answered with a status that is no success; the status.
    Rejected(String),
    /// The answer has no `Operation-Location` header.
    MissingLocation,
    /// The `Operation-Location` header is no text; the decoder's message.
    BadLocation(String),
    /// The service took the document; where to ask for the result.
    Accepted(String),
}

/// How one poll of the status endpoint ended.
pub enum PollOutcome {
    /// The request could not be sent; the transport's message.
    Unreachable(String),
    /// The service answered with a status that is no success.
    Refused,
    /// The answer could not be decoded; the decoder's message.
    Malformed(String),
    /// The answer was decoded; the analysis, where it is complete.
    Answered(Option<DocumentAnalysis>),
}

/// What the caller does next.
pub enum RemoteStep {
    /// Wait `wait_secs` seconds, then ask `location` for the result; this
    /// is poll number `attempt`.
    Poll { location: String, wait_secs: u64, attempt: u32 },
    /// The analysis is complete.
    Completed(DocumentAnalysis),
    /// The analysis failed.
    Failed(ParserError),
}

/// `heading` followed by `detail`.
pub fn headed(heading: &str, detail: &str) -> (text: String)
    ensures
        text@ == heading@ + detail@,
{
    let mut text = String::from_str(heading);
    text.append(detail);
    text
}

/// The lines, each followed by a newline.
pub open spec fn lines_text(lines: Seq<String>) -> Seq<char>
    decreases lines.len(),
{
    if lines.len() == 0 {
        Seq::empty()
    } else {
        lines_text(lines.drop_last()) + lines.last()@ + seq!['\n']
    }
}

/// The text of an analysed page: its lines, each followed by a newline,
/// trimmed as a whole.
pub open spec fn analyzed_text(page: AnalyzedPage) -> Seq<char> {
    match page.lines {
        Some(lines) => trimmed(lines_text(lines@)),
        None => Seq::empty(),
    }
}

/// The analysed pages that have text, in order.
pub open spec fn kept_pages(pages: Seq<AnalyzedPage>) -> Seq<AnalyzedPage>
    decreases pages.len(),
{
    if pages.len() == 0 {
        Seq::empty()
    } else if analyzed_text(pages.last()).len() > 0 {
        kept_pages(pages.drop_last()).push(pages.last())
    } else {
        kept_pages(pages.drop_last())
    }
}

/// The analysed pages of an analysis; none where it lists none.
pub open spec fn listed_pages(analysis: DocumentAnalysis) -> Seq<AnalyzedPage> {
    match analysis.pages {
        Some(pages) => pages@,
        None => Seq::empty(),
    }
}

/// The service numbers these analysed pages from 1 or above, in
/// non-decreasing order.
pub open spec fn numbered_in_order(kept: Seq<AnalyzedPage>) -> bool {
    &&& forall|i: int| 0 <= i < kept.len() ==> (#[trigger] kept[i]).page_number >= 1
    &&& forall|i: int, j: int|
        0 <= i <= j < kept.len() ==> (#[trigger] kept[i]).page_number <= (
        #[trigger] kept[j]).page_number
}

/// `pages` are the `kept` analysed pages: each with the service's page
/// number and the page's text, without images.
pub open spec fn pages_of_kept(pages: Seq<Page>, kept: Seq<AnalyzedPage>) -> bool {
    &&& pages.len() == kept.len()
    &&& forall|i: int|
        0 <= i < pages.len() ==> kept[i].page_number >= 1 && (#[trigger] pages[i]).holds(
            kept[i].page_number as u32,
            analyzed_text(kept[i]),
        )
}

/// `numbers` and `page_texts` are the page numbers and the texts of the
/// `kept` analysed pages.
pub open spec fn is_kept(numbers: Seq<i32>, page_texts: Seq<String>, kept: Seq<AnalyzedPage>) -> bool {
    &&& numbers.len() == kept.len()
    &&& page_texts.len() == kept.len()
    &&& forall|i: int| 0 <= i < kept.len() ==> #[trigger] numbers[i] == kept[i].page_number
    &&& forall|i: int|
        0 <= i < kept.len() ==> (#[trigger] page_texts[i])@ == analyzed_text(kept[i])
}

/// The text of the lines of a page.
pub fn text_of_lines(lines: &Vec<String>) -> (text: String)
    ensures
        text@ == trimmed(lines_text(lines@)),
{
    let n = lines.len();
    let mut text = String::new();
    let mut i: usize = 0;
    assert(lines@.take(0) =~= Seq::<String>::empty());
    while i < n
        invariant
            i <= n == lines.len(),
            text@ == lines_text(lines@.take(i as int)),
        decreases n - i,
    {
        proof {
            let next = lines@.take(i + 1);
            assert(next.drop_last() =~= lines@.take(i as int));
            assert(next.last() == lines@[i as int]);
        }
        let ghost before = text@;
        text.append(lines[i].as_str());
        text.push('\n');
        assert(text@ =~= before + lines@[i as int]@ + seq!['\n']);
        i += 1;
    }
    assert(lines@.take(n as int) =~= lines@);
    trim(text.as_str())
}

/// Parser that has documents read by Azure Document Intelligence.
pub struct AzureDocIntelligenceParser {
    pub endpoint: String,
    pub api_key: String,
}

impl AzureDocIntelligenceParser {
    pub fn new(endpoint: String, api_key: String) -> (parser: Self)
        ensures
            parser.endpoint == endpoint,
            parser.api_key == api_key,
    {
        AzureDocIntelligenceParser { endpoint, api_key }
    }

    /// The address to which a document is submitted.
    pub fn analyze_url(&self) -> (url: String)
        ensures
            url@ == self.endpoint@
                + "/formrecognizer/documentModels/prebuilt-read:analyze?api-version=2023-07-31"@,
    {
        headed(
            self.endpoint.as_str(),
            "/formrecognizer/documentModels/prebuilt-read:analyze?api-version=2023-07-31",
        )
    }

    /// What follows the submission: the first poll where the service took
    /// the document, a failure otherwise.
    pub fn after_submit(&self, outcome: SubmitOutcome) -> (step: RemoteStep)
        ensures
            match outcome {
                SubmitOutcome::Accepted(location) => step matches RemoteStep::Poll {
                    location: l,
                    wait_secs,
                    attempt,
                } && l == location && wait_secs == POLL_INTERVAL_SECS && attempt == 1,
                SubmitOutcome::Unreachable(m) => step matches RemoteStep::Failed(e) && e
                    is RemoteProtocol && e.detail() == "Failed to submit document: "@ + m@,
                SubmitOutcome::Rejected(status) => step matches RemoteStep::Failed(e) && e
                    is RemoteProtocol && e.detail() == "Azure API error: "@ + status@,
                SubmitOutcome::MissingLocation => step matches RemoteStep::Failed(e) && e
                    is RemoteProtocol && e.detail() == "No operation location"@,
                SubmitOutcome::BadLocation(m) => step matches RemoteStep::Failed(e) && e
                    is RemoteProtocol && e.detail() == "Invalid header: "@ + m@,
            },
    {
        match outcome {
            SubmitOutcome::Accepted(location) => RemoteStep::Poll {
                location,
                wait_secs: POLL_INTERVAL_SECS,
                attempt: 1,
            },
            SubmitOutcome::Unreachable(m) => RemoteStep::Failed(
                ParserError::RemoteProtocol(headed("Failed to submit document: ", m.as_str())),
            ),
            SubmitOutcome::Rejected(status) => RemoteStep::Failed(
                ParserError::RemoteProtocol(headed("Azure API error: ", status.as_str())),
            ),
            SubmitOutcome::MissingLocation => RemoteStep::Failed(
                ParserError::RemoteProtocol(String::from_str("No operation location")),
            ),
            SubmitOutcome::BadLocation(m) => RemoteStep::Failed(
                ParserError::RemoteProtocol(headed("Invalid header: ", m.as_str())),
            ),
        }
    }

    /// What follows poll number `attempt` of `location`: the analysis where
    /// it is complete; a failure where the request or its answer is
    /// broken; otherwise the next poll, or a timeout after the last of
    /// `MAX_POLL_ATTEMPTS`.
    pub fn after_poll(&self, location: String, attempt: u32, outcome: PollOutcome) -> (step:
        RemoteStep)
        ensures
            match outcome {
                PollOutcome::Answered(Some(analysis)) => step matches RemoteStep::Completed(a)
                    && a == analysis,
                PollOutcome::Unreachable(m) => step matches RemoteStep::Failed(e) && e
                    is RemoteProtocol && e.detail() == "Failed to get results: "@ + m@,
                PollOutcome::Malformed(m) => step matches RemoteStep::Failed(e) && e
                    is RemoteProtocol && e.detail() == "Failed to parse response: "@ + m@,
                _ => if attempt < MAX_POLL_ATTEMPTS {
                    step matches RemoteStep::Poll { location: l, wait_secs, attempt: next }
                        && l == location && wait_secs == POLL_INTERVAL_SECS && next == attempt
                        + 1
                } else {
                    step matches RemoteStep::Failed(e) && e is RemoteTimeout && e.detail()
                        == "Analysis timeout"@
                },
            },
    {
        match outcome {
            PollOutcome::Answered(Some(analysis)) => RemoteStep::Completed(analysis),
            PollOutcome::Unreachable(m) => RemoteStep::Failed(
                ParserError::RemoteProtocol(headed("Failed to get results: ", m.as_str())),
            ),
            PollOutcome::Malformed(m) => RemoteStep::Failed(
                ParserError::RemoteProtocol(headed("Failed to parse response: ", m.as_str())),
            ),
            _ => {
                if attempt < MAX_POLL_ATTEMPTS {
                    RemoteStep::Poll {
                        location,
                        wait_secs: POLL_INTERVAL_SECS,
                        attempt: attempt + 1,
                    }
                } else {
                    RemoteStep::Failed(
                        ParserError::RemoteTimeout(String::from_str("Analysis timeout")),
                    )
                }
            },
        }
    }
}

impl Parser for AzureDocIntelligenceParser {
    type Document = DocumentAnalysis;

    /// The pages of a completed analysis: one for each analysed page that
    /// has text, with the service's page number. Fails where no page has
    /// text, and where the service numbers a page with text below 1 or
    /// below the page before it.
    fn parse(&self, document: &DocumentAnalysis) -> (result: Result<Vec<Page>, ParserError>)
        ensures
            result is Ok <==> kept_pages(listed_pages(*document)).len() > 0 && numbered_in_order(
                kept_pages(listed_pages(*document)),
            ),
            result matches Ok(pages) ==> pages_of_kept(pages@, kept_pages(listed_pages(*document)))
                && pages_in_order(pages@),
            result matches Err(e) ==> (if kept_pages(listed_pages(*document)).len() == 0 {
                e is ParseError && e.detail() == "No pages extracted"@
            } else {
                e is RemoteProtocol && e.detail() == "Page numbers out of order"@
            }),
    {
        let ghost kept = kept_pages(listed_pages(*document));
        let mut numbers: Vec<i32> = Vec::new();
        let mut page_texts: Vec<String> = Vec::new();
        if let Some(analyzed) = &document.pages {
            let n = analyzed.len();
            let mut i: usize = 0;
            assert(analyzed@.take(0) =~= Seq::<AnalyzedPage>::empty());
            while i < n
                invariant
                    i <= n == analyzed.len(),
                    is_kept(numbers@, page_texts@, kept_pages(analyzed@.take(i as int))),
                decreases n - i,
            {
                proof {
                    let next = analyzed@.take(i + 1);
                    assert(next.drop_last() =~= analyzed@.take(i as int));
                    assert(next.last() == analyzed@[i as int]);
                }
                let text = match &analyzed[i].lines {
                    Some(lines) => text_of_lines(lines),
                    None => String::new(),
                };
                if !text.as_str().is_empty() {
                    numbers.push(analyzed[i].page_number);
                    page_texts.push(text);
                }
                i += 1;
            }
            assert(analyzed@.take(n as int) =~= analyzed@);
        }
        assert(is_kept(numbers@, page_texts@, kept));
        let count = numbers.len();
        if count == 0 {
            return Err(ParserError::ParseError(String::from_str("No pages extracted")));
        }
        let mut pages: Vec<Page> = Vec::new();
        let mut k: usize = 0;
        while k < count
            invariant
                k <= count == numbers.len() == page_texts.len() == kept.len(),
                kept == kept_pages(listed_pages(*document)),
                pages@.len() == k,
                forall|i: int| 0 <= i < count ==> #[trigger] numbers@[i] == kept[i].page_number,
                forall|i: int|
                    k <= i < count ==> (#[trigger] page_texts@[i])@ == analyzed_text(kept[i]),
                forall|i: int| 0 <= i < k ==> #[trigger] numbers@[i] >= 1,
                forall|i: int, j: int|
                    0 <= i <= j < k ==> #[trigger] numbers@[i] <= #[trigger] numbers@[j],
                forall|i: int|
                    0 <= i < k ==> (#[trigger] pages@[i]).holds(
                        numbers@[i] as u32,
                        analyzed_text(kept[i]),
                    ),
            decreases count - k,
        {
            let number = numbers[k];
            if number < 1 || (k > 0 && number < numbers[k - 1]) {
                proof {
                    assert(kept[k as int].page_number == numbers@[k as int]);
                    if k > 0 {
                        assert(kept[k - 1].page_number == numbers@[k - 1]);
                    }
                    assert(!numbered_in_order(kept));
                }
                return Err(
                    ParserError::RemoteProtocol(String::from_str("Page numbers out of order")),
                );
            }
            let mut text = String::new();
            std::mem::swap(&mut text, &mut page_texts[k]);
            pages.push(Page::new(number as u32, text));
            proof {
                assert forall|i: int, j: int| 0 <= i <= j < k + 1 implies #[trigger] numbers@[i]
                    <= #[trigger] numbers@[j] by {
                    if j == k && i < k {
                        assert(numbers@[i] <= numbers@[k - 1]);
                    }
                }
            }
            k += 1;
        }
        proof {
            assert forall|i: int| 0 <= i < kept.len() implies (#[trigger] kept[i]).page_number
                >= 1 by {
                assert(numbers@[i] >= 1);
            }
            assert forall|i: int, j: int| 0 <= i <= j < kept.len() implies (
            #[trigger] kept[i]).page_number <= (#[trigger] kept[j]).page_number by {
                assert(numbers@[i] <= numbers@[j]);
            }
            assert forall|i: int, j: int| 0 <= i <= j < pages@.len() implies (
            #[trigger] pages@[i]).page_num <= (#[trigger] pages@[j]).page_num by {
                assert(numbers@[i] <= numbers@[j]);
            }
        }
        Ok(pages)
    }

    fn supported_extensions(&self) -> (list: Vec<&'static str>)
        ensures
            list@.len() == 6,
            list@[0]@ == "pdf"@,
            list@[1]@ == "jpg"@,
            list@[2]@ == "jpeg"@,
            list@[3]@ == "png"@,
            list@[4]@ == "bmp"@,
            list@[5]@ == "tiff"@,
    {
        let mut list: Vec<&'static str> = Vec::new();
        list.push("pdf");
        list.push("jpg");
        list.push("jpeg");
        list.push("png");
        list.push("bmp");
        list.push("tiff");
        list
    }

    fn supported_mime_types(&self) -> (list: Vec<&'static str>)
        ensures
            list@.len() == 5,
            list@[0]@ == "application/pdf"@,
            list@[1]@ == "image/jpeg"@,
            list@[2]@ == "image/png"@,
            list@[3]@ == "image/bmp"@,
            list@[4]@ == "image/tiff"@,
    {
        let mut list: Vec<&'static str> = Vec::new();
        list.push("application/pdf");
        list.push("image/jpeg");
        list.push("image/png");
        list.push("image/bmp");
        list.push("image/tiff");
        list
    }
}

} // verus!
