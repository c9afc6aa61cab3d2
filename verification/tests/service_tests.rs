use keiko_ingestion::parser::local_pdf::PdfDocument;
use keiko_ingestion::service::{
    create_service, resolve_option, total_tokens, IngestError, IngestionServiceImpl,
    DEFAULT_MAX_TOKENS, DEFAULT_OVERLAP_PERCENT,
};
use keiko_ingestion::splitter::Chunk;

#[test]
fn options_fall_back_to_defaults() {
    assert_eq!(DEFAULT_MAX_TOKENS, 500);
    assert_eq!(DEFAULT_OVERLAP_PERCENT, 10);
    assert_eq!(resolve_option(0, 500), 500);
    assert_eq!(resolve_option(-3, 10), 10);
    assert_eq!(resolve_option(1, 500), 1);
    assert_eq!(resolve_option(i32::MAX, 500), i32::MAX as usize);
}

#[test]
fn service_parses_and_splits() {
    let service = create_service();
    let document = PdfDocument {
        page_count: 2,
        text: "Hello world. This is a test! Does it work? Yes.".to_string(),
    };
    let parsed = service.parse_document(&document, 8, -1).unwrap();
    assert_eq!(parsed.page_count, 1);
    assert_eq!(parsed.chunks.len(), 2);
    assert_eq!(parsed.chunks[0].text, "Hello world. This is a test!");
    assert_eq!(parsed.chunks[1].text, "Does it work? Yes.");
    assert_eq!(parsed.total_tokens, 14);

    let defaults = IngestionServiceImpl::default().parse_document(&document, 0, 0).unwrap();
    assert_eq!(defaults.chunks.len(), 1);
    assert_eq!(defaults.total_tokens, 14);
}

#[test]
fn service_reports_documents_without_text() {
    let service = create_service();
    let document = PdfDocument { page_count: 1, text: String::new() };
    match service.parse_document(&document, 0, 0) {
        Err(IngestError::Parse(error)) => {
            assert_eq!(error.message(), "PDF parsing error: No text content found in PDF")
        }
        _ => panic!("expected a parse error"),
    }
}

#[test]
fn total_tokens_adds_up() {
    let chunk = |n: usize| Chunk {
        id: String::new(),
        page_num: 1,
        text: String::new(),
        token_count: n,
        char_count: 0,
    };
    assert_eq!(total_tokens(&vec![]), 0);
    assert_eq!(total_tokens(&vec![chunk(3), chunk(4)]), 7);
    assert_eq!(
        total_tokens(&vec![chunk(usize::MAX), chunk(usize::MAX)]),
        2 * (usize::MAX as u128)
    );
}
