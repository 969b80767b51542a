use novel_translator::archive::{
    get_ordered_path, get_pages, page_of, Archive, DocumentError, ResourceEntry,
};
use novel_translator::doc::Doc;
use novel_translator::extraction::ImagePage;
use novel_translator::page::Activity;

fn entry(id: &str, path: &str, mime: &str, data: &[u8]) -> ResourceEntry {
    ResourceEntry {
        id: id.to_string(),
        path: path.to_string(),
        mime: mime.to_string(),
        data: data.to_vec(),
    }
}

fn japanese_chapter() -> String {
    let sentence = "これは長い文章です\u{3002}".to_string();
    format!("<html><body><p>{}</p></body></html>", sentence.repeat(4))
}

fn sample_archive() -> Archive {
    Archive {
        spine: vec!["c1".to_string(), "c2".to_string()],
        resources: vec![
            entry("c1", "Text/ch1.xhtml", "application/xhtml+xml", japanese_chapter().as_bytes()),
            entry(
                "c2",
                "Text/ch2.xhtml",
                "application/xhtml+xml",
                b"<html><body><p>short</p></body></html>",
            ),
        ],
        cover_id: None,
        toc: Vec::new(),
    }
}

#[test]
fn ordered_paths_follow_spine() {
    let archive = sample_archive();
    let paths = get_ordered_path(&archive).unwrap();
    assert_eq!(paths, vec!["Text/ch1.xhtml".to_string(), "Text/ch2.xhtml".to_string()]);
}

#[test]
fn ordered_paths_fail_on_missing_resource() {
    let mut archive = sample_archive();
    archive.spine.push("ghost".to_string());
    assert!(get_ordered_path(&archive).is_none());
}

#[test]
fn page_of_builds_units_from_markdown() {
    let page = page_of("Text/ch1.xhtml".to_string(), &japanese_chapter()).unwrap().unwrap();
    assert_eq!(page.path, "Text/ch1.xhtml");
    assert_eq!(page.activity, Activity::Incomplete);
    assert_eq!(page.text.len(), page.sections.len());
    assert!(!page.sections.is_empty());
    // The converter really ran: the markup is gone, the text remains.
    assert!(page.sections[0].contains("これは長い文章です"));
    assert!(!page.sections[0].contains("<p>"));
}

#[test]
fn page_of_skips_empty_chapters() {
    let empty = page_of("Text/blank.xhtml".to_string(), "<html><body></body></html>").unwrap();
    assert!(empty.is_none());
}

#[test]
fn get_pages_returns_translatable_pages_in_order() {
    let archive = sample_archive();
    let (name, pages) = get_pages("book.epub".to_string(), &archive).unwrap();
    assert_eq!(name, "book.epub");
    assert_eq!(pages.len(), 2);
    assert_eq!(pages[0].path, "Text/ch1.xhtml");
    assert_eq!(pages[1].path, "Text/ch2.xhtml");
}

#[test]
fn get_pages_reports_missing_resources() {
    let mut archive = sample_archive();
    archive.spine.push("ghost".to_string());
    assert!(matches!(
        get_pages("x".to_string(), &archive),
        Err(DocumentError::MissingResource)
    ));
}

#[test]
fn get_pages_reports_bad_text() {
    let mut archive = sample_archive();
    archive.resources[0].data = vec![0xff, 0xfe];
    assert!(matches!(get_pages("x".to_string(), &archive), Err(DocumentError::BadText)));
}

#[test]
fn document_error_messages() {
    assert_eq!(DocumentError::MissingResource.message(), "resource missing from archive");
    assert_eq!(DocumentError::BadText.message(), "content document is not text");
    assert_eq!(DocumentError::Convert.message(), "could not convert content document");
}

#[test]
fn doc_viewer_navigation() {
    let mut doc = Doc::new();
    doc.set_epub("book.epub".to_string(), sample_archive());
    assert_eq!(doc.current_page, Some(0));
    assert_eq!(doc.total_pages, 2);
    assert!(doc.content.contains("<part>1</part>"));
    assert!(doc.content.contains("これは長い文章です"));

    doc.inc_page();
    assert_eq!(doc.current_page, Some(1));
    assert!(doc.content.contains("short"));

    // Past the last page nothing moves.
    doc.inc_page();
    assert_eq!(doc.current_page, Some(1));

    doc.dec_page();
    assert_eq!(doc.current_page, Some(0));
    doc.dec_page();
    assert_eq!(doc.current_page, Some(0));
}

#[test]
fn image_page_encodes_base64() {
    let page = ImagePage::from_bytes("scan1.png".to_string(), b"abc".to_vec());
    assert_eq!(page.base64, "YWJj");
    assert!(page.checked);
    assert!(!page.complete);
    assert_eq!(page.content, "");
    let padded = ImagePage::from_bytes("p".to_string(), b"ab".to_vec());
    assert_eq!(padded.base64, "YWI=");
}
