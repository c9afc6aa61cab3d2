use keiko_ingestion::parser::azure_doc_intelligence::{
    AnalyzedPage, AzureDocIntelligenceParser, DocumentAnalysis, PollOutcome, RemoteStep,
    SubmitOutcome, MAX_POLL_ATTEMPTS, POLL_INTERVAL_SECS,
};
use keiko_ingestion::parser::docx::{DocumentChild, DocxParser, ParagraphChild, RunChild};
use keiko_ingestion::parser::html::{paginate, visible_text, HtmlNode, HtmlParser};
use keiko_ingestion::parser::local_pdf::{LocalPdfParser, PdfDocument};
use keiko_ingestion::parser::{Parser, ParserError};
use lopdf::{Dictionary, Document, Object};

#[test]
fn test_docx_parser_supported_extensions() {
    let parser = DocxParser::new();
    let extensions = parser.supported_extensions();
    assert!(extensions.contains(&"docx"));
}

#[test]
fn test_docx_parser_supported_mime_types() {
    let parser = DocxParser::new();
    let mime_types = parser.supported_mime_types();
    assert!(mime_types
        .contains(&"application/vnd.openxmlformats-officedocument.wordprocessingml.document"));
}

#[test]
fn test_html_parser_supported_extensions() {
    let parser = HtmlParser::new();
    let extensions = parser.supported_extensions();
    assert!(extensions.contains(&"html"));
    assert!(extensions.contains(&"htm"));
}

#[test]
fn test_html_parser_supported_mime_types() {
    let parser = HtmlParser::new();
    let mime_types = parser.supported_mime_types();
    assert!(mime_types.contains(&"text/html"));
}

#[test]
fn test_html_parser_basic() {
    let parser = HtmlParser::new();
    let html = b"<html><body><h1>Test</h1><p>Content</p></body></html>";
    let result = parser.parse(&html.to_vec());
    assert!(result.is_ok());
    let pages = result.unwrap();
    assert!(!pages.is_empty());
}

#[test]
fn html_heading_and_paragraph_give_one_page() {
    let parser = HtmlParser::new();
    let html = b"<html><body><h1>Test</h1><p>Content</p></body></html>";
    let pages = parser.parse(&html.to_vec()).unwrap();
    assert_eq!(pages.len(), 1);
    assert_eq!(pages[0].page_num, 1);
    assert_eq!(pages[0].text, "Test Content");
    assert!(pages[0].images.is_empty());
}

#[test]
fn html_leaves_out_script_and_style() {
    let parser = HtmlParser::new();
    let html = "<html><head><title>T</title><style>p { color: red; }</style></head>\
        <body><p> Shown </p><script>var hidden = 1;</script><style>.x{}</style>\
        <div>also   shown</div></body></html>";
    assert_eq!(parser.extract_text(html).unwrap(), "Shown also   shown");
}

#[test]
fn html_without_body_gives_the_text_of_the_whole_tree() {
    let parser = HtmlParser::new();
    let html = "<html><head><title>Title text</title></head>\
        <frameset><noframes>Fallback text</noframes></frameset></html>";
    assert_eq!(parser.extract_text(html).unwrap(), "Title text Fallback text");
    let pages = parser.parse(&html.as_bytes().to_vec()).unwrap();
    assert_eq!(pages.len(), 1);
    assert_eq!(pages[0].text, "Title text Fallback text");
}

#[test]
fn html_without_text_is_an_error() {
    let parser = HtmlParser::new();
    for html in ["", "<html><body>  </body></html>", "<body><script>x()</script></body>"] {
        match parser.parse(&html.as_bytes().to_vec()) {
            Err(ParserError::ParseError(message)) => {
                assert_eq!(message, "No text content found in HTML")
            }
            other => panic!("unexpected: {:?}", other),
        }
    }
}

#[test]
fn html_that_is_not_utf8_is_an_error() {
    let parser = HtmlParser::new();
    match parser.parse(&vec![b'<', b'p', b'>', 0xff, 0xfe]) {
        Err(ParserError::ParseError(message)) => assert!(message.starts_with("Invalid UTF-8: ")),
        other => panic!("unexpected: {:?}", other),
    }
}

#[test]
fn html_pages_hold_two_thousand_characters() {
    let parser = HtmlParser::new();
    let word = "é".repeat(4500);
    let html = format!("<html><body><p>{}</p></body></html>", word);
    let pages = parser.parse(&html.into_bytes()).unwrap();
    assert_eq!(pages.len(), 3);
    let lengths: Vec<usize> = pages.iter().map(|p| p.text.chars().count()).collect();
    assert_eq!(lengths, vec![2000, 2000, 500]);
    let numbers: Vec<u32> = pages.iter().map(|p| p.page_num).collect();
    assert_eq!(numbers, vec![1, 2, 3]);
}

#[test]
fn paginate_cuts_fixed_windows() {
    assert!(paginate("").unwrap().is_empty());
    let exact = "a".repeat(4000);
    let pages = paginate(&exact).unwrap();
    assert_eq!(pages.len(), 2);
    assert_eq!(pages[1].text.len(), 2000);
    let text: String = ('a'..='z').cycle().take(2001).collect();
    let pages = paginate(&text).unwrap();
    assert_eq!(pages.len(), 2);
    assert_eq!(pages[0].text, text[..2000]);
    assert_eq!(pages[1].text, text[2000..]);
    assert_eq!(pages[1].page_num, 2);
}

#[test]
fn visible_text_joins_shown_text_nodes() {
    let nodes = vec![
        HtmlNode::Other,
        HtmlNode::Text { content: "  one ".to_string(), parent: Some("p".to_string()) },
        HtmlNode::Text { content: "hidden".to_string(), parent: Some("script".to_string()) },
        HtmlNode::Text { content: "hidden".to_string(), parent: Some("style".to_string()) },
        HtmlNode::Text { content: " \n ".to_string(), parent: None },
        HtmlNode::Text { content: "two".to_string(), parent: None },
    ];
    assert_eq!(visible_text(&nodes), "one two");
    assert_eq!(visible_text(&vec![]), "");
}

fn paragraph(pieces: &[&str]) -> DocumentChild {
    DocumentChild::Paragraph(vec![ParagraphChild::Run(
        pieces.iter().map(|p| RunChild::Text(p.to_string())).collect(),
    )])
}

#[test]
fn docx_short_document_is_one_page() {
    let parser = DocxParser::new();
    let body = vec![
        paragraph(&["Hello ", "world"]),
        DocumentChild::Other,
        DocumentChild::Paragraph(vec![
            ParagraphChild::Other,
            ParagraphChild::Run(vec![RunChild::Other, RunChild::Text("Second".to_string())]),
            ParagraphChild::Run(vec![RunChild::Text(" paragraph".to_string())]),
        ]),
        paragraph(&[]),
    ];
    let pages = parser.parse(&body).unwrap();
    assert_eq!(pages.len(), 1);
    assert_eq!(pages[0].page_num, 1);
    assert_eq!(pages[0].text, "Hello world\nSecond paragraph");
}

#[test]
fn docx_flushes_a_page_above_two_thousand_characters() {
    let parser = DocxParser::new();
    let long = "x".repeat(1999);
    let body = vec![
        paragraph(&[&long]),
        paragraph(&["y"]),
        paragraph(&["tail"]),
        paragraph(&[&"z".repeat(2500)]),
    ];
    let pages = parser.parse(&body).unwrap();
    let numbers: Vec<u32> = pages.iter().map(|p| p.page_num).collect();
    assert_eq!(numbers, vec![1, 2]);
    assert_eq!(pages[0].text, format!("{}\ny", long));
    assert_eq!(pages[1].text, format!("tail\n{}", "z".repeat(2500)));

    let exactly = vec![paragraph(&[&"x".repeat(1999)]), paragraph(&["more"])];
    assert_eq!(parser.parse(&exactly).unwrap().len(), 1);
}

#[test]
fn docx_blank_buffer_gives_no_page() {
    let parser = DocxParser::new();
    let blank = " ".repeat(2001);
    let pages = parser.parse(&vec![paragraph(&[&blank]), paragraph(&["text"])]).unwrap();
    assert_eq!(pages.len(), 1);
    assert_eq!(pages[0].page_num, 1);
    assert_eq!(pages[0].text, "text");
    let padded = format!("{}word", " ".repeat(1999));
    let pages = parser.parse(&vec![paragraph(&[&padded]), paragraph(&["next"])]).unwrap();
    let found: Vec<(u32, &str)> = pages.iter().map(|p| (p.page_num, p.text.as_str())).collect();
    assert_eq!(found, vec![(1, "word"), (2, "next")]);
}

#[test]
fn docx_without_text_is_an_error() {
    let parser = DocxParser::new();
    let blank = " ".repeat(2001);
    for body in [
        vec![],
        vec![DocumentChild::Other, paragraph(&[])],
        vec![paragraph(&["  "])],
        vec![paragraph(&[&blank])],
        vec![paragraph(&[&blank]), paragraph(&["\t"])],
    ] {
        match parser.parse(&body) {
            Err(ParserError::ParseError(message)) => {
                assert_eq!(message, "No text content found in DOCX")
            }
            other => panic!("unexpected: {:?}", other),
        }
    }
}

fn minimal_pdf(pages: usize) -> Vec<u8> {
    let mut document = Document::with_version("1.5");
    let pages_id = document.new_object_id();
    let mut kids = Vec::new();
    for _ in 0..pages {
        let mut page = Dictionary::new();
        page.set("Type", Object::Name(b"Page".to_vec()));
        page.set("Parent", Object::Reference(pages_id));
        kids.push(Object::Reference(document.add_object(Object::Dictionary(page))));
    }
    let mut tree = Dictionary::new();
    tree.set("Type", Object::Name(b"Pages".to_vec()));
    tree.set("Count", Object::Integer(pages as i64));
    tree.set("Kids", Object::Array(kids));
    document.objects.insert(pages_id, Object::Dictionary(tree));
    let mut catalog = Dictionary::new();
    catalog.set("Type", Object::Name(b"Catalog".to_vec()));
    catalog.set("Pages", Object::Reference(pages_id));
    let catalog_id = document.add_object(Object::Dictionary(catalog));
    document.trailer.set("Root", Object::Reference(catalog_id));
    let mut bytes = Vec::new();
    document.save_to(&mut bytes).unwrap();
    bytes
}

#[test]
fn pdf_open_counts_pages() {
    let parser = LocalPdfParser::new();
    assert_eq!(parser.open(&minimal_pdf(3)).unwrap(), 3);
    assert_eq!(parser.open(&minimal_pdf(1)).unwrap(), 1);
    match parser.open(&minimal_pdf(0)) {
        Err(ParserError::PdfParse(message)) => assert_eq!(message, "No pages found in PDF"),
        other => panic!("unexpected: {:?}", other),
    }
    assert!(matches!(parser.open(b"this is no pdf"), Err(ParserError::PdfParse(_))));
    assert!(matches!(parser.open(&[]), Err(ParserError::PdfParse(_))));
}

#[test]
fn pdf_page_count_reads_the_loader_answer() {
    let parser = LocalPdfParser::new();
    assert_eq!(parser.page_count(Ok(5)).unwrap(), 5);
    assert_eq!(parser.page_count(Ok(usize::MAX)).unwrap(), usize::MAX);
    match parser.page_count(Ok(0)) {
        Err(ParserError::PdfParse(message)) => assert_eq!(message, "No pages found in PDF"),
        other => panic!("unexpected: {:?}", other),
    }
    match parser.page_count(Err("broken xref".to_string())) {
        Err(ParserError::PdfParse(message)) => assert_eq!(message, "broken xref"),
        other => panic!("unexpected: {:?}", other),
    }
}

#[test]
fn pdf_text_goes_on_page_one() {
    let parser = LocalPdfParser::default();
    let pages = parser
        .parse(&PdfDocument { page_count: 7, text: "All the text.\n\nOf all pages.".to_string() })
        .unwrap();
    assert_eq!(pages.len(), 1);
    assert_eq!(pages[0].page_num, 1);
    assert_eq!(pages[0].text, "All the text.\n\nOf all pages.");
    assert_eq!(parser.supported_extensions(), vec!["pdf"]);
    assert_eq!(parser.supported_mime_types(), vec!["application/pdf"]);
}

#[test]
fn pdf_without_pages_or_text_is_an_error() {
    let parser = LocalPdfParser::new();
    match parser.parse(&PdfDocument { page_count: 0, text: "text".to_string() }) {
        Err(ParserError::PdfParse(message)) => assert_eq!(message, "No pages found in PDF"),
        other => panic!("unexpected: {:?}", other),
    }
    match parser.parse(&PdfDocument { page_count: 2, text: String::new() }) {
        Err(ParserError::PdfParse(message)) => assert_eq!(message, "No text content found in PDF"),
        other => panic!("unexpected: {:?}", other),
    }
}

fn azure() -> AzureDocIntelligenceParser {
    AzureDocIntelligenceParser::new("https://ocr.example".to_string(), "key".to_string())
}

fn analyzed(page_number: i32, lines: Option<&[&str]>) -> AnalyzedPage {
    AnalyzedPage { page_number, lines: lines.map(|l| l.iter().map(|s| s.to_string()).collect()) }
}

#[test]
fn remote_pages_come_from_the_analysis() {
    let analysis = DocumentAnalysis {
        pages: Some(vec![
            analyzed(1, Some(&["first line", "second line"])),
            analyzed(0, Some(&["  ", ""])),
            analyzed(-7, None),
            analyzed(4, Some(&["last"])),
            analyzed(4, Some(&["same number"])),
        ]),
        content: None,
    };
    let pages = azure().parse(&analysis).unwrap();
    let found: Vec<(u32, &str)> = pages.iter().map(|p| (p.page_num, p.text.as_str())).collect();
    assert_eq!(found, vec![(1, "first line\nsecond line"), (4, "last"), (4, "same number")]);
}

#[test]
fn remote_page_numbers_must_start_at_one_and_never_decrease() {
    for numbers in [vec![0], vec![-1], vec![1, 0], vec![2, 1], vec![1, 3, 2], vec![i32::MIN]] {
        let pages = numbers.iter().map(|n| analyzed(*n, Some(&["x"]))).collect();
        match azure().parse(&DocumentAnalysis { pages: Some(pages), content: None }) {
            Err(ParserError::RemoteProtocol(message)) => {
                assert_eq!(message, "Page numbers out of order")
            }
            other => panic!("unexpected: {:?}", other),
        }
    }
    let pages = vec![analyzed(i32::MAX, Some(&["x"]))];
    let parsed = azure().parse(&DocumentAnalysis { pages: Some(pages), content: None }).unwrap();
    assert_eq!(parsed[0].page_num, i32::MAX as u32);
}

#[test]
fn remote_analysis_without_text_is_an_error() {
    for pages in [None, Some(vec![]), Some(vec![analyzed(1, None), analyzed(2, Some(&[" "]))])] {
        match azure().parse(&DocumentAnalysis { pages, content: Some("ignored".to_string()) }) {
            Err(ParserError::ParseError(message)) => assert_eq!(message, "No pages extracted"),
            other => panic!("unexpected: {:?}", other),
        }
    }
}

#[test]
fn remote_capabilities() {
    let parser = azure();
    assert_eq!(
        parser.analyze_url(),
        "https://ocr.example/formrecognizer/documentModels/prebuilt-read:analyze?api-version=2023-07-31"
    );
    assert_eq!(parser.supported_extensions(), vec!["pdf", "jpg", "jpeg", "png", "bmp", "tiff"]);
    assert_eq!(
        parser.supported_mime_types(),
        vec!["application/pdf", "image/jpeg", "image/png", "image/bmp", "image/tiff"]
    );
}

fn failure(step: RemoteStep) -> ParserError {
    match step {
        RemoteStep::Failed(error) => error,
        _ => panic!("expected a failure"),
    }
}

#[test]
fn remote_submission_outcomes() {
    let parser = azure();
    match parser.after_submit(SubmitOutcome::Accepted("https://ocr.example/op/1".to_string())) {
        RemoteStep::Poll { location, wait_secs, attempt } => {
            assert_eq!(location, "https://ocr.example/op/1");
            assert_eq!(wait_secs, 2);
            assert_eq!(attempt, 1);
        }
        _ => panic!("expected a poll"),
    }
    assert_eq!(
        failure(parser.after_submit(SubmitOutcome::Rejected("401 Unauthorized".to_string())))
            .message(),
        "Remote protocol error: Azure API error: 401 Unauthorized"
    );
    assert_eq!(
        failure(parser.after_submit(SubmitOutcome::Unreachable("refused".to_string()))).message(),
        "Remote protocol error: Failed to submit document: refused"
    );
    assert_eq!(
        failure(parser.after_submit(SubmitOutcome::MissingLocation)).message(),
        "Remote protocol error: No operation location"
    );
    assert_eq!(
        failure(parser.after_submit(SubmitOutcome::BadLocation("not text".to_string()))).message(),
        "Remote protocol error: Invalid header: not text"
    );
}

#[test]
fn remote_polling_gives_up_after_thirty_attempts() {
    let parser = azure();
    assert_eq!(MAX_POLL_ATTEMPTS, 30);
    assert_eq!(POLL_INTERVAL_SECS, 2);
    let mut step = parser.after_submit(SubmitOutcome::Accepted("loc".to_string()));
    let mut polls = 0;
    let mut waited = 0;
    loop {
        match step {
            RemoteStep::Poll { location, wait_secs, attempt } => {
                polls += 1;
                waited += wait_secs;
                assert_eq!(attempt, polls);
                let outcome = if attempt % 2 == 0 {
                    PollOutcome::Refused
                } else {
                    PollOutcome::Answered(None)
                };
                step = parser.after_poll(location, attempt, outcome);
            }
            RemoteStep::Failed(error) => {
                assert!(matches!(error, ParserError::RemoteTimeout(_)));
                assert_eq!(error.message(), "Remote timeout: Analysis timeout");
                break;
            }
            RemoteStep::Completed(_) => panic!("nothing was completed"),
        }
    }
    assert_eq!(polls, 30);
    assert_eq!(waited, 60);
}

#[test]
fn remote_polling_ends_at_the_first_completed_analysis() {
    let parser = azure();
    let analysis = DocumentAnalysis { pages: Some(vec![analyzed(1, Some(&["done"]))]), content: None };
    match parser.after_poll("loc".to_string(), 30, PollOutcome::Answered(Some(analysis))) {
        RemoteStep::Completed(found) => {
            assert_eq!(parser.parse(&found).unwrap()[0].text, "done")
        }
        _ => panic!("expected the analysis"),
    }
    assert_eq!(
        failure(parser.after_poll("loc".to_string(), 1, PollOutcome::Malformed("eof".to_string())))
            .message(),
        "Remote protocol error: Failed to parse response: eof"
    );
    assert_eq!(
        failure(parser.after_poll("loc".to_string(), 5, PollOutcome::Unreachable("down".to_string())))
            .message(),
        "Remote protocol error: Failed to get results: down"
    );
    assert!(matches!(
        parser.after_poll("loc".to_string(), 29, PollOutcome::Refused),
        RemoteStep::Poll { attempt: 30, .. }
    ));
}

#[test]
fn parser_error_messages() {
    assert_eq!(ParserError::Io("gone".to_string()).message(), "IO error: gone");
    assert_eq!(ParserError::PdfParse("bad".to_string()).message(), "PDF parsing error: bad");
    assert_eq!(ParserError::ParseError("bad".to_string()).message(), "Parse error: bad");
    assert_eq!(
        ParserError::UnsupportedFormat("xyz".to_string()).message(),
        "Unsupported format: xyz"
    );
}
