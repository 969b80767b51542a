use novel_translator::extraction::{Extraction, ImagePage};
use novel_translator::orchestrator::{Method, ServerState, TransError};
use novel_translator::session::Server;

fn image(name: &str, checked: bool) -> ImagePage {
    let mut page = ImagePage::from_bytes(name.to_string(), name.as_bytes().to_vec());
    page.checked = checked;
    page
}

fn session(images: Vec<ImagePage>) -> Extraction {
    let mut state = ServerState::new();
    state.server = Server::ollama();
    state.current_model = Some("vision".to_string());
    Extraction {
        server_state: state,
        method: Method::Chain,
        current_page: 0,
        pages: images,
        image_view: novel_translator::doc::ImageView::Image,
    }
}

#[test]
fn batch_extract_plans_checked_window() {
    let mut ex = session(vec![
        image("a.png", true),
        image("b.png", false),
        image("c.png", true),
    ]);
    let plan = ex.batch_extract(0).unwrap().unwrap();
    assert_eq!(plan.calls.len(), 2);
    assert_eq!(plan.calls[0].page, 0);
    assert_eq!(plan.calls[1].page, 2);
    assert_eq!(plan.next_page, 6);
    assert_eq!(plan.model, "vision");
    // The deselected image is untouched, the selected ones are reset.
    assert!(!ex.pages[1].checked);
    assert!(!ex.pages[0].complete);
    assert_eq!(ex.pages[0].content, "");
}

#[test]
fn batch_extract_needs_connection() {
    let mut ex = session(vec![image("a.png", true)]);
    ex.server_state.server = Server::Disconnected;
    assert!(matches!(ex.batch_extract(0), Err(TransError::NotConnected)));
}

#[test]
fn chain_extract_single_image() {
    let mut ex = session(vec![image("a.png", true), image("b.png", true)]);
    let plan = ex.chain_extract(0).unwrap().unwrap();
    assert_eq!(plan.calls.len(), 1);
    assert_eq!(plan.calls[0].page, 0);
    assert_eq!(plan.next_page, 1);
}

#[test]
fn chain_extract_skips_deselected_image() {
    let mut ex = session(vec![image("a.png", false)]);
    let plan = ex.chain_extract(0).unwrap().unwrap();
    assert!(plan.calls.is_empty());
    assert_eq!(plan.next_page, 1);
}

#[test]
fn chain_extract_past_end_plans_nothing() {
    let mut ex = session(vec![image("a.png", true)]);
    assert!(ex.chain_extract(7).unwrap().is_none());
}

#[test]
fn update_and_save_text() {
    let mut ex = session(vec![image("a.png", true), image("b.png", true), image("c.png", false)]);
    ex.update_content(0, "first page text");
    ex.update_content(2, "ignored, deselected");
    ex.mark_complete(0);
    assert!(ex.pages[0].complete);
    let text = ex.save_text();
    assert_eq!(text, "\n<page>a.png</page>\n\nfirst page text\n");
}

#[test]
fn toggle_check_flips_selection() {
    let mut ex = session(vec![image("a.png", true)]);
    ex.toggle_check(0);
    assert!(!ex.pages[0].checked);
    ex.toggle_check(0);
    assert!(ex.pages[0].checked);
    ex.toggle_check(9);
    assert!(ex.pages[0].checked);
}
