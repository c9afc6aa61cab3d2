//! The ingestion service: one PDF document in, its chunks and their counts
//! out. The transport around it hands over the decoded document and the
//! caller's chunking options.

use crate::parser::local_pdf::{LocalPdfParser, PdfDocument};
use crate::parser::{Parser, ParserError};
use crate::splitter::chunk::{Chunk, ChunkContent, SplitError, SplitFault, contents};
use crate::splitter::sentence::{SentenceTextSplitter, page_chunks, document_run};
use crate::splitter::TextSplitter;
use vstd::prelude::*;

verus! {

/// Token budget of a chunk where the caller names none.
pub const DEFAULT_MAX_TOKENS: usize = 500;

/// Overlap between chunks, in a hundred, where the caller names none.
pub const DEFAULT_OVERLAP_PERCENT: usize = 10;

/// The option to use for a requested value: the value itself where it is
/// positive, the default otherwise.
pub open spec fn resolved(requested: i32, default: usize) -> usize {
    if requested > 0 {
        requested as usize
    } else {
        default
    }
}

/// The option to use for a requested value.
pub fn resolve_option(requested: i32, default: usize) -> (value: usize)
    ensures
        value == resolved(requested, default),
{
    if requested > 0 {
        requested as usize
    } else {
        default
    }
}

/// The sum of the token counts of `chunks`.
pub open spec fn token_sum(chunks: Seq<ChunkContent>) -> nat
    decreases chunks.len(),
{
    if chunks.len() == 0 {
        0
    } else {
        token_sum(chunks.drop_last()) + chunks.last().token_count
    }
}

/// The sum of the token counts of `chunks`.
pub fn total_tokens(chunks: &Vec<Chunk>) -> (total: u128)
    ensures
        total == token_sum(contents(chunks@)),
{
    let n = chunks.len();
    let mut total: u128 = 0;
    let mut i: usize = 0;
    assert(contents(chunks@).take(0) =~= Seq::<ChunkContent>::empty());
    while i < n
        invariant
            i <= n == chunks.len(),
            total == token_sum(contents(chunks@).take(i as int)),
            total <= i * usize::MAX,
        decreases n - i,
    {
        proof {
            let next = contents(chunks@).take(i + 1);
            assert(next.drop_last() =~= contents(chunks@).take(i as int));
            assert(next.last() == chunks@[i as int]@);
            assert(i * usize::MAX + usize::MAX <= 0xFFFF_FFFF_FFFF_FFFF * 0x1_0000_0000_0000_0000)
                by (nonlinear_arith)
                requires
                    0 <= i < 0xFFFF_FFFF_FFFF_FFFF,
                    usize::MAX <= 0xFFFF_FFFF_FFFF_FFFF,
            ;
            assert((i + 1) * usize::MAX == i * usize::MAX + usize::MAX) by (nonlinear_arith);
        }
        total = total + chunks[i].token_count as u128;
        i += 1;
    }
    assert(contents(chunks@).take(n as int) =~= contents(chunks@));
    total
}

/// Why a document could not be ingested.
#[derive(Debug, Clone)]
pub enum IngestError {
    /// The document gave no pages.
    Parse(ParserError),
    /// The pages could not be split.
    Split(SplitError),
}

/// The chunks of a document, and what the service reports of them.
#[derive(Debug, Clone)]
pub struct ParsedDocument {
    pub chunks: Vec<Chunk>,
    pub page_count: usize,
    pub total_tokens: u128,
}

/// The chunks that the service returns for a PDF document with this text.
pub open spec fn service_chunks(
    text: Seq<char>,
    max_tokens_per_chunk: i32,
    overlap_percent: i32,
) -> Result<Seq<ChunkContent>, SplitFault> {
    let max_tokens = resolved(max_tokens_per_chunk, DEFAULT_MAX_TOKENS);
    let percent = resolved(overlap_percent, DEFAULT_OVERLAP_PERCENT);
    page_chunks(text, 1, max_tokens as nat, ((max_tokens * percent) / 100) as nat)
}

/// The ingestion service.
#[derive(Default)]
pub struct IngestionServiceImpl;

impl IngestionServiceImpl {
    /// Parses a PDF document and splits its pages. Options that are not
    /// positive give way to the defaults.
    pub fn parse_document(
        &self,
        document: &PdfDocument,
        max_tokens_per_chunk: i32,
        overlap_percent: i32,
    ) -> (result: Result<ParsedDocument, IngestError>)
        ensures
            result matches Ok(parsed) ==> {
                &&& document.page_count > 0 && document.text@.len() > 0
                &&& service_chunks(document.text@, max_tokens_per_chunk, overlap_percent) == Ok::<
                    Seq<ChunkContent>,
                    SplitFault,
                >(contents(parsed.chunks@))
                &&& parsed.page_count == 1
                &&& parsed.total_tokens == token_sum(contents(parsed.chunks@))
            },
            result matches Err(IngestError::Parse(e)) ==> (document.page_count == 0
                || document.text@.len() == 0) && e is PdfParse && e.detail() == (
            if document.page_count == 0 {
                "No pages found in PDF"@
            } else {
                "No text content found in PDF"@
            }),
            result matches Err(IngestError::Split(e)) ==> document.page_count > 0
                && document.text@.len() > 0 && service_chunks(
                document.text@,
                max_tokens_per_chunk,
                overlap_percent,
            ) == Err::<Seq<ChunkContent>, SplitFault>(e.fault()),
    {
        let parser = LocalPdfParser::new();
        let pages = match parser.parse(document) {
            Ok(pages) => pages,
            Err(error) => {
                return Err(IngestError::Parse(error));
            },
        };
        let max_tokens = resolve_option(max_tokens_per_chunk, DEFAULT_MAX_TOKENS);
        let percent = resolve_option(overlap_percent, DEFAULT_OVERLAP_PERCENT);
        let splitter = match SentenceTextSplitter::new(max_tokens, percent) {
            Ok(splitter) => splitter,
            Err(error) => {
                return Err(IngestError::Split(error));
            },
        };
        proof {
            reveal_with_fuel(document_run, 3);
        }
        let chunks = match splitter.split(pages.as_slice()) {
            Ok(chunks) => chunks,
            Err(error) => {
                return Err(IngestError::Split(error));
            },
        };
        let total = total_tokens(&chunks);
        Ok(ParsedDocument { chunks, page_count: pages.len(), total_tokens: total })
    }
}

/// The service that the transport serves.
pub fn create_service() -> (service: IngestionServiceImpl) {
    IngestionServiceImpl
}

} // verus!
