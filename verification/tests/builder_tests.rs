use novel_translator::archive::{Archive, ResourceEntry};
use novel_translator::builder::{
    add_titles, collect_contents, get_images, link_files, parse_anchors, BuilderPage,
    ChapterContent, DocBuilder,
};
use std::io::Cursor;

fn entry(id: &str, path: &str, mime: &str, data: &[u8]) -> ResourceEntry {
    ResourceEntry {
        id: id.to_string(),
        path: path.to_string(),
        mime: mime.to_string(),
        data: data.to_vec(),
    }
}

fn sample_archive() -> Archive {
    let ch1 = "<html><head></head><body><p>Hello world.</p></body></html>";
    let ch2 = "<html><head></head><body><p>Second chapter.</p></body></html>";
    Archive {
        spine: vec!["c1".to_string(), "c2".to_string()],
        resources: vec![
            entry("c1", "Text/ch1.xhtml", "application/xhtml+xml", ch1.as_bytes()),
            entry("c2", "Text/ch2.xhtml", "application/xhtml+xml", ch2.as_bytes()),
            entry("img1", "Images/pic.png", "image/png", b"PNGDATA"),
            entry("cov", "cover.jpg", "image/jpeg", b"JPGDATA"),
        ],
        cover_id: Some("cov".to_string()),
        toc: vec![("ch1.xhtml".to_string(), "Chapter 1".to_string())],
    }
}

#[test]
fn is_matching_file_compares_names() {
    let page = BuilderPage { path: "/tmp/out/ch1.md".to_string(), content: String::new() };
    assert!(page.is_matching_file(&"ch1.md".to_string()));
    assert!(page.is_matching_file(&"other/dir/ch1.md".to_string()));
    assert!(!page.is_matching_file(&"ch2.md".to_string()));
}

#[test]
fn link_files_pairs_stems() {
    let map = vec![
        ("ch1".to_string(), "Text/ch1.xhtml".to_string()),
        ("ch2".to_string(), "Text/ch2.xhtml".to_string()),
    ];
    let (md, xml) = link_files(&"OEBPS/Text/ch2.xhtml".to_string(), &map).unwrap();
    assert_eq!(md, "ch2.md");
    assert_eq!(xml, "Text/ch2.xhtml");
    assert!(link_files(&"Text/ch9.xhtml".to_string(), &map).is_none());
}

#[test]
fn get_images_skips_cover() {
    let archive = sample_archive();
    let images = get_images(&archive);
    assert_eq!(images.len(), 1);
    assert_eq!(images[0].id, "img1");
    assert_eq!(images[0].data, b"PNGDATA");
}

#[test]
fn collect_contents_overrides_matched_chapter() {
    let archive = sample_archive();
    let pages = vec![BuilderPage {
        path: "/save/ch1.md".to_string(),
        content: "# Translated\n\nNew text.".to_string(),
    }];
    let contents = collect_contents(&archive, &pages).unwrap();
    assert_eq!(contents.len(), 2);
    assert_eq!(contents[0].href, "Text/ch1.xhtml");
    assert_eq!(contents[1].href, "Text/ch2.xhtml");
    // The overridden chapter was rendered from markdown.
    assert!(contents[0].html.contains("Translated"));
    assert!(contents[0].html.contains("New text."));
    assert!(!contents[0].html.contains("Hello world."));
    // The untouched chapter carries its original text.
    assert!(contents[1].html.contains("Second chapter."));
}

#[test]
fn parse_anchors_reads_links() {
    let anchors = parse_anchors("intro\n- [Chapter One](Text/ch1.xhtml)\n- [Two](ch2.xhtml#top)\n");
    assert_eq!(anchors.len(), 2);
    assert_eq!(anchors[0], ("ch1.xhtml".to_string(), "Chapter One".to_string()));
    assert_eq!(anchors[1], ("ch2.xhtml".to_string(), "Two".to_string()));
}

#[test]
fn add_titles_applies_anchors_and_nests_the_rest() {
    let contents = vec![
        ChapterContent {
            href: "Text/ch1.xhtml".to_string(),
            html: String::new(),
            title: None,
            level: 1,
        },
        ChapterContent {
            href: "Text/ch2.xhtml".to_string(),
            html: String::new(),
            title: None,
            level: 1,
        },
    ];
    let anchors = vec![("ch1.xhtml".to_string(), "Chapter One".to_string())];
    let titled = add_titles(contents, &anchors);
    assert_eq!(titled[0].title, Some("Chapter One".to_string()));
    assert_eq!(titled[0].level, 1);
    assert_eq!(titled[1].title, None);
    assert_eq!(titled[1].level, 2);
}

#[test]
fn build_and_reopen_round_trip() {
    // Building an archive from an unmodified page set and re-opening it
    // yields the same spine order and the same chapter text, modulo
    // whitespace and escaping normalization.
    let archive = sample_archive();
    let builder = DocBuilder { epub: archive, name: "book.epub".to_string(), pages: Vec::new() };
    let (bytes, name) = builder.build(None).unwrap();
    assert_eq!(name, "book.epub");

    let mut reopened = epub::doc::EpubDoc::from_reader(Cursor::new(bytes)).unwrap();
    // Spine order is preserved: two chapters in the original order.
    assert_eq!(reopened.spine.len(), 2);
    let first_path = reopened.spine[0].idref.clone();
    let second_path = reopened.spine[1].idref.clone();
    let (first, _mime) = reopened.get_resource_str(&first_path).unwrap();
    let (second, _mime2) = reopened.get_resource_str(&second_path).unwrap();
    assert!(first.contains("Hello world."));
    assert!(second.contains("Second chapter."));
    // The cover went through the dedicated cover mechanism.
    assert!(reopened.get_cover_id().is_some());
    // The non-cover image reached the archive under Images/ with its bytes.
    let image = reopened.get_resource_by_path("OEBPS/Images/pic.png");
    assert_eq!(image, Some(b"PNGDATA".to_vec()));
}

#[test]
fn prepare_hands_everything_over_and_returns_name() {
    let archive = sample_archive();
    let builder = DocBuilder { epub: archive, name: "n.epub".to_string(), pages: Vec::new() };
    let (_packager, name) = builder.prepare(&None).unwrap();
    assert_eq!(name, "n.epub");
}

#[test]
fn build_with_titles_from_toc_markdown() {
    let archive = sample_archive();
    let anchors = parse_anchors("[First Chapter](ch1.xhtml)");
    let builder = DocBuilder { epub: archive, name: "t.epub".to_string(), pages: Vec::new() };
    let (bytes, _name) = builder.build(Some(anchors)).unwrap();
    let reopened = epub::doc::EpubDoc::from_reader(Cursor::new(bytes)).unwrap();
    let titles: Vec<String> = reopened.toc.iter().map(|n| n.label.clone()).collect();
    assert!(titles.iter().any(|t| t == "First Chapter"));
}
