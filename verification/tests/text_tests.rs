use novel_translator::heuristic::check_english_chars;
use novel_translator::numeral::usize_to_decimal;
use novel_translator::paths::{file_name, file_stem, to_image_path, to_md_name, to_text_path};
use novel_translator::tags::{remove_part_tags, remove_think_tags, strip_tag_regions};
use novel_translator::text::{from_chars, replace_jp_symbols, to_chars};
use novel_translator::transcode::{escape_xml, wrap_tag};

#[test]
fn chars_round_trip() {
    let v = to_chars("abc\u{3002}\u{300c}x");
    assert_eq!(v.len(), 6);
    let s = from_chars(&v);
    assert_eq!(s, "abc\u{3002}\u{300c}x");
}

#[test]
fn replace_jp_symbols_folds_quotes() {
    assert_eq!(
        replace_jp_symbols("\u{300c}こんにちは\u{300d}と\u{300e}別\u{300f}"),
        "\"こんにちは\"と\"別\""
    );
    assert_eq!(replace_jp_symbols("plain"), "plain");
}

#[test]
fn escape_xml_entities() {
    assert_eq!(escape_xml("a<b>&c\"d'e"), "a&lt;b&gt;&amp;c&quot;d&apos;e");
    assert_eq!(escape_xml("plain text"), "plain text");
}

#[test]
fn wrap_tag_wraps() {
    assert_eq!(wrap_tag("inner", "body"), "<body>\ninner\n</body>");
}

#[test]
fn remove_think_tags_strips_regions() {
    assert_eq!(
        remove_think_tags("<think>reasoning</think>  \n\nanswer"),
        "answer"
    );
    assert_eq!(remove_think_tags("no tags here"), "no tags here");
    assert_eq!(
        remove_think_tags("a<think>x</think> b<think>y</think>c"),
        "abc"
    );
}

#[test]
fn remove_think_tags_keeps_unclosed_marker() {
    assert_eq!(remove_think_tags("a<think>never closed"), "a<think>never closed");
}

#[test]
fn remove_part_tags_strips_numbers() {
    assert_eq!(remove_part_tags("<part>1</part>\n\nhello"), "hello");
    assert_eq!(
        remove_part_tags("<part>1</part>\nfirst\n<part>2</part>\nsecond"),
        "first\nsecond"
    );
}

#[test]
fn strip_regions_generic_markers() {
    assert_eq!(strip_tag_regions("x<a>zap</a>  y", "<a>", "</a>"), "xy");
}

#[test]
fn heuristic_above_threshold_passes() {
    // 4 alphanumeric of 4 non-whitespace characters.
    assert!(check_english_chars("word", 75));
}

#[test]
fn heuristic_exact_threshold_passes() {
    // Exactly three of four non-whitespace characters are alphanumeric.
    assert!(check_english_chars("abc,", 75));
}

#[test]
fn heuristic_below_threshold_fails() {
    // Half alphanumeric is below 75 percent.
    assert!(!check_english_chars("ab,.", 75));
    assert!(!check_english_chars("こんにちは", 75));
}

#[test]
fn heuristic_whitespace_only_fails() {
    assert!(!check_english_chars("   \n\t", 75));
    assert!(!check_english_chars("", 75));
}

#[test]
fn heuristic_ignores_whitespace() {
    // Whitespace is not counted against the ratio.
    assert!(check_english_chars("a b c d", 75));
}

#[test]
fn decimal_rendering() {
    assert_eq!(usize_to_decimal(0), "0");
    assert_eq!(usize_to_decimal(7), "7");
    assert_eq!(usize_to_decimal(42), "42");
    assert_eq!(usize_to_decimal(90210), "90210");
}

#[test]
fn path_helpers() {
    assert_eq!(file_name("OEBPS/Text/ch01.xhtml"), "ch01.xhtml");
    assert_eq!(file_name("plain.xhtml"), "plain.xhtml");
    assert_eq!(file_stem("OEBPS/Text/ch01.xhtml"), "ch01");
    assert_eq!(file_stem("archive.tar.gz"), "archive.tar");
    assert_eq!(file_stem(".hidden"), ".hidden");
    assert_eq!(to_md_name("Text/ch01.xhtml"), "ch01.md");
    assert_eq!(to_text_path("OEBPS/ch01.xhtml"), "Text/ch01.xhtml");
    assert_eq!(to_image_path("../Images", "pics/cover.png"), "../Images/cover.png");
}
