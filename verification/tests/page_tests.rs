use novel_translator::page::{classify_units, Activity, Page};

fn strings(parts: &[&str]) -> Vec<String> {
    parts.iter().map(|s| s.to_string()).collect()
}

#[test]
fn new_page_invariant_and_state() {
    let page = Page::new("Text/ch1.xhtml".to_string(), strings(&["unit one", "unit two"]));
    assert_eq!(page.text.len(), page.sections.len());
    assert_eq!(page.activity, Activity::Incomplete);
    assert!(page.text.iter().all(|t| t.is_empty()));
}

#[test]
fn clear_content_keeps_slot_count() {
    let mut page = Page::new("p".to_string(), strings(&["a", "b", "c"]));
    page.update_content(0, "hello");
    page.update_content(2, "world");
    page.clear_content();
    assert_eq!(page.text.len(), page.sections.len());
    assert!(page.text.iter().all(|t| t.is_empty()));
}

#[test]
fn update_content_appends_only() {
    let mut page = Page::new("p".to_string(), strings(&["a", "b"]));
    page.update_content(1, "first ");
    page.update_content(1, "second");
    assert_eq!(page.text[1], "first second");
    assert_eq!(page.text[0], "");
    assert_eq!(page.text.len(), page.sections.len());
}

#[test]
fn classification_complete_when_mostly_ascii() {
    let texts = strings(&["This is a translated passage.", "And another one follows here."]);
    assert_eq!(classify_units(&texts), Activity::Complete);
}

#[test]
fn classification_error_when_source_language_remains() {
    let texts = strings(&["これは日本語のままです。", "翻訳されていません。"]);
    assert_eq!(classify_units(&texts), Activity::Error);
}

#[test]
fn classification_incomplete_with_empty_unit() {
    let texts = strings(&["Translated text here.", ""]);
    assert_eq!(classify_units(&texts), Activity::Incomplete);
}

#[test]
fn classification_no_units_is_error() {
    // With no units at all, nothing is empty, but there is no text either:
    // the ratio cannot pass, so the page is classified Error.
    let texts: Vec<String> = Vec::new();
    assert_eq!(classify_units(&texts), Activity::Error);
}

#[test]
fn evaluate_records_classification() {
    let mut page = Page::new("p".to_string(), strings(&["u1", "u2"]));
    page.update_content(0, "All good words here.");
    page.update_content(1, "More fine words arrive.");
    page.evaluate();
    assert_eq!(page.activity, Activity::Complete);

    let mut bad = Page::new("q".to_string(), strings(&["u1"]));
    bad.update_content(0, "、、、、。。。。");
    bad.evaluate();
    assert_eq!(bad.activity, Activity::Error);
}

#[test]
fn clear_part_clears_one_slot() {
    let mut page = Page::new("p".to_string(), strings(&["a", "b"]));
    page.update_content(0, "left");
    page.update_content(1, "right");
    page.clear_part(1);
    assert_eq!(page.text[0], "left");
    assert_eq!(page.text[1], "");
}
