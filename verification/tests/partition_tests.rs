use novel_translator::partition::{
    group_sections, join_partition, join_strings, part_tag, partition_text, split_sentences,
};

fn concat(parts: &[String]) -> String {
    parts.concat()
}

#[test]
fn empty_input_yields_no_sections() {
    let sections = partition_text("");
    assert_eq!(sections.len(), 0);
}

#[test]
fn short_input_is_one_section() {
    let sections = partition_text("こんにちは。さようなら。");
    assert_eq!(sections.len(), 1);
    assert_eq!(sections[0], "こんにちは。さようなら。");
}

#[test]
fn split_keeps_terminators() {
    let frags = split_sentences("一。二。三");
    assert_eq!(frags, vec!["一。".to_string(), "二。".to_string(), "三".to_string()]);
}

#[test]
fn split_round_trip() {
    let text = "一。二。三。おわり";
    let frags = split_sentences(text);
    assert_eq!(concat(&frags), text);
}

#[test]
fn partition_round_trip_mixed_text() {
    let text = "あ。".repeat(1500) + "末尾のテキスト";
    let sections = partition_text(&text);
    assert_eq!(concat(&sections), text);
    assert!(sections.len() > 1);
}

#[test]
fn partition_round_trip_no_terminator() {
    let text = "x".repeat(5000);
    let sections = partition_text(&text);
    assert_eq!(concat(&sections), text);
    assert_eq!(sections.len(), 1);
}

#[test]
fn five_thousand_chars_with_periodic_stops() {
    // A 5000-character single paragraph with a sentence stop roughly every
    // 500 characters: sentences of 624 characters plus the terminator.
    let sentence = "a".repeat(624) + "\u{3002}";
    let text = sentence.repeat(8);
    assert_eq!(text.chars().count(), 5000);
    let sections = partition_text(&text);
    assert_eq!(sections.len(), 3);
    for section in &sections {
        assert!(section.chars().count() < 2000);
    }
    assert!(!sections[2].is_empty());
    assert_eq!(concat(&sections), text);
}

#[test]
fn long_single_sentence_kept_whole() {
    let long = "y".repeat(2500) + "\u{3002}";
    let text = format!("{}おまけ\u{3002}", long);
    let sections = partition_text(&text);
    assert_eq!(concat(&sections), text);
    // The over-long sentence is never split in the middle.
    assert!(sections[0].chars().count() >= 2500);
}

#[test]
fn section_bound_holds_for_multi_sentence_sections() {
    let sentence = "b".repeat(99) + "\u{3002}";
    let text = sentence.repeat(100);
    let sections = partition_text(&text);
    assert_eq!(concat(&sections), text);
    for (i, section) in sections.iter().enumerate() {
        if i + 1 < sections.len() {
            assert!(section.chars().count() < 2000);
        }
    }
}

#[test]
fn part_tag_format() {
    assert_eq!(part_tag(1), "\n\n<part>1</part>\n\n");
    assert_eq!(part_tag(12), "\n\n<part>12</part>\n\n");
    assert_eq!(part_tag(0), "\n\n<part>0</part>\n\n");
    assert_eq!(part_tag(305), "\n\n<part>305</part>\n\n");
}

#[test]
fn join_partition_numbers_from_one() {
    let parts = vec!["alpha".to_string(), "beta".to_string()];
    let joined = join_partition(parts);
    assert_eq!(
        joined,
        "\n\n<part>1</part>\n\n\n\nalpha\n\n\n\n<part>2</part>\n\n\n\nbeta"
    );
}

#[test]
fn join_partition_empty() {
    assert_eq!(join_partition(Vec::new()), "");
}

#[test]
fn group_sections_runs_of_three() {
    let parts: Vec<String> = (1..=7).map(|i| format!("s{}", i)).collect();
    let units = group_sections(&parts);
    assert_eq!(units, vec!["s1 s2 s3".to_string(), "s4 s5 s6".to_string(), "s7".to_string()]);
}

#[test]
fn group_sections_exact_multiple() {
    let parts: Vec<String> = (1..=3).map(|i| format!("s{}", i)).collect();
    let units = group_sections(&parts);
    assert_eq!(units, vec!["s1 s2 s3".to_string()]);
}

#[test]
fn join_strings_with_separator() {
    let parts = vec!["a".to_string(), "b".to_string(), "c".to_string()];
    assert_eq!(join_strings(&parts, "\n"), "a\nb\nc");
    assert_eq!(join_strings(&parts, ""), "abc");
    assert_eq!(join_strings(&Vec::new(), ","), "");
}
