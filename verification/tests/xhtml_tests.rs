use novel_translator::transcode::{gen_html, to_xml};
use novel_translator::xhtml::{rewrite_image_paths, update_image_paths};
use novel_translator::xml_converter::XmlConverter;

#[test]
fn image_src_is_rewritten_to_base() {
    let out = rewrite_image_paths("<img src=\"a/b.png\"/>", "../Images");
    assert_eq!(out, "<img src=\"../Images/b.png\"/>");
}

#[test]
fn image_xlink_href_is_rewritten() {
    let out = update_image_paths("<image xlink:href=\"pics/cover.jpg\"/>");
    assert_eq!(out, "<image xlink:href=\"../Images/cover.jpg\"/>");
}

#[test]
fn other_attributes_and_tags_untouched() {
    let xml = "<p>before</p><img alt=\"x\" src=\"deep/path/i.png\" width=\"5\"/><p>after</p>";
    let out = update_image_paths(xml);
    assert_eq!(
        out,
        "<p>before</p><img alt=\"x\" src=\"../Images/i.png\" width=\"5\"/><p>after</p>"
    );
}

#[test]
fn non_image_markup_passes_through() {
    let xml = "<html><body><h1>Title</h1><p>text with &lt; marks</p></body></html>";
    assert_eq!(update_image_paths(xml), xml);
}

#[test]
fn gen_html_renders_markdown_inside_document() {
    let html = gen_html("# Chapter 1\n\nHello world.");
    assert!(html.starts_with("<html>"));
    assert!(html.ends_with("</html>"));
    assert!(html.contains("stylesheet.css"));
    assert!(html.contains("<body>"));
    // The outside renderer really ran: markdown became markup.
    assert!(html.contains("<h1>"));
    assert!(html.contains("Chapter 1"));
    assert!(html.contains("Hello world."));
}

#[test]
fn gen_html_strips_backend_artifacts_and_quotes() {
    let html = gen_html("<think>internal</think><part>1</part>\u{300c}Quote\u{300d}");
    assert!(!html.contains("internal"));
    assert!(!html.contains("<part>"));
    assert!(!html.contains("\u{300c}"));
    assert!(html.contains("Quote"));
}

#[test]
fn renderer_decodes_numeric_character_references() {
    // The outside renderer turns a numeric character reference into the
    // character it names, even when that character is nowhere in the
    // input.
    let html = to_xml("&#x300C;");
    assert!(html.contains('\u{300c}'));
}

#[test]
fn gen_html_neutralizes_character_references() {
    // The escaper turns the reference's ampersand into an entity before
    // rendering, so no corner bracket can reach the finished chapter.
    let html = gen_html("&#x300C;quoted&#x300D;");
    assert!(!html.contains('\u{300c}'));
    assert!(!html.contains('\u{300d}'));
    assert!(html.contains("quoted"));
}

#[test]
fn converter_turns_headings_and_paragraphs_into_markdown() {
    let converter = XmlConverter::new(vec!["head".to_string()]);
    let md = converter.convert(
        "<head><title>skip me</title></head><h1>Top</h1><h2>Sub</h2><p>Body text.</p>",
    );
    assert_eq!(md, "# Top\n## Sub\nBody text.");
}

#[test]
fn converter_removes_skipped_and_script_elements() {
    let converter = XmlConverter::new(vec!["nav".to_string()]);
    let md = converter.convert(
        "<nav>menu</nav><script>var x;</script><style>p{}</style><p>Kept.</p>",
    );
    assert_eq!(md, "Kept.");
}

#[test]
fn converter_joins_bare_text_and_blocks_with_newlines() {
    let converter = XmlConverter::new(Vec::new());
    assert_eq!(converter.convert("x<p>y</p>z"), "x\ny\nz");
}

#[test]
fn converter_drops_whitespace_between_tags() {
    let converter = XmlConverter::new(Vec::new());
    let md = converter.convert("<h1>T</h1>\n    <p>P</p>\n");
    assert_eq!(md, "# T\nP");
}

#[test]
fn converter_runs_trimmed_text_nodes_together_inside_blocks() {
    // Inside a block each text node is trimmed and the nodes are
    // concatenated without a separator, the way a pull parser's trimmed
    // text events read.
    let converter = XmlConverter::new(Vec::new());
    let md = converter.convert("<p>one <em>two</em> three</p>");
    assert_eq!(md, "onetwothree");
}

#[test]
fn converter_trims_heading_text() {
    let converter = XmlConverter::new(Vec::new());
    assert_eq!(converter.convert("<h3>  Deep  </h3>"), "### Deep");
}
