//! Tests of text cleanup, truncation, titles, and HTML stripping.

use engram_core::html;
use engram_core::text::{
    clean_text, decode_pdf_base64, estimate_page_count, extract_text, extract_title,
    truncate_at_sentence, PdfConfig, PdfError,
};

#[test]
fn test_clean_text() {
    let input = "Hello   world\n\n\nThis is   a test.";
    let cleaned = clean_text(input);
    assert!(!cleaned.contains("   ")); // No triple spaces
    assert!(cleaned.contains("Hello world")); // Normalized spaces
}

#[test]
fn test_clean_text_drops_controls_and_trims() {
    let input = "  a\u{0007}b  ";
    assert_eq!(clean_text(input), "ab");
    assert_eq!(clean_text("one\n\ntwo"), "one \n\ntwo");
    assert_eq!(clean_text("one\ntwo"), "one two");
}

#[test]
fn test_truncate_at_sentence() {
    let text = "First sentence. Second sentence. Third sentence.";
    let truncated = truncate_at_sentence(text, 25);
    assert!(truncated.ends_with("..."));
    assert!(truncated.len() <= 30); // Allow some room for "..."
}

#[test]
fn test_truncate_exact() {
    // sentence end inside the last tenth of the window is used
    let text = "First sentence. Second sentence. Third sentence.";
    assert_eq!(truncate_at_sentence(text, 25), "First sentence. Second...");
    // short enough text comes back unchanged
    assert_eq!(truncate_at_sentence("short", 25), "short");
    // with no boundary at all, the cut is hard
    assert_eq!(truncate_at_sentence("aaaaaaaaaa", 4), "aaaa...");
}

#[test]
fn test_extract_title() {
    let text = "Introduction to Machine Learning\n\nThis document discusses...";
    let title = extract_title(text);
    assert_eq!(title, Some("Introduction to Machine Learning".to_string()));
}

#[test]
fn test_extract_title_no_title() {
    let text = "This is a very long first line that goes on and on and probably isn't a title because it's way too long to be a reasonable document title.";
    let title = extract_title(text);
    assert!(title.is_none());
}

#[test]
fn test_estimate_page_count() {
    let short_text = "Short text";
    assert_eq!(estimate_page_count(short_text), 1);

    let long_text = "x".repeat(10000);
    assert_eq!(estimate_page_count(&long_text), 4);
}

#[test]
fn test_extract_text_rejects_oversized() {
    // the size limit is checked before the extraction outcome is used
    let cfg = PdfConfig { max_size: 4, min_text_length: 1, max_text_length: 100 };
    let r = extract_text(&[0u8; 10], Ok("irrelevant".to_string()), Some(&cfg));
    assert!(matches!(r, Err(PdfError::TooLarge { max_mb: 0 })));
}

#[test]
fn test_extract_text_propagates_extractor_failure() {
    let r = extract_text(&[0u8; 4], Err("unreadable document".to_string()), None);
    match r {
        Err(PdfError::ExtractionError(e)) => assert_eq!(e, "unreadable document"),
        _ => panic!("expected the extractor's failure"),
    }
}

#[test]
fn test_extract_text_pipeline() {
    let cfg = PdfConfig { max_size: 100, min_text_length: 10, max_text_length: 500 };
    let raw = "A Short Title

Body   text. More body text here.".to_string();
    let content = extract_text(&[0u8; 4], Ok(raw), Some(&cfg)).unwrap();
    assert_eq!(content.text, "A Short Title 

Body text. More body text here.");
    assert!(!content.truncated);
    assert_eq!(content.page_count, 1);
    assert_eq!(content.title, Some("A Short Title".to_string()));

    let empty = extract_text(&[0u8; 4], Ok("tiny".to_string()), Some(&cfg));
    assert!(matches!(empty, Err(PdfError::EmptyContent)));
}

#[test]
fn test_decode_pdf_base64() {
    assert_eq!(decode_pdf_base64("aGVsbG8=").unwrap(), b"hello");
    let r = decode_pdf_base64("!!!not-base64!!!");
    assert!(matches!(r, Err(PdfError::Base64Error(_))));
}

#[test]
fn test_strip_html_tags() {
    let html = "<html><body><h1>Head</h1>\n<p>Some   text</p></body></html>";
    assert_eq!(html::strip_html_tags(html), "Head Some text");
    assert_eq!(html::strip_html_tags("no tags  here"), "no tags here");
}

#[test]
fn test_html_title_tag() {
    let page = "<html><head><TITLE> My Page </TITLE></head><body>x</body></html>";
    assert_eq!(html::extract_title(page), Some("My Page".to_string()));
    assert_eq!(html::extract_title("<html><body>none</body></html>"), None);
    // a closing tag before the opening one yields nothing
    assert_eq!(html::extract_title("</title>text<title>"), None);
}
