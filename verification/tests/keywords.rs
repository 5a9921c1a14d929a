use webb::keywords::{
    chars_of, first_target, has_word, mentions_target, strip_blanks, TARGETS,
};

#[test]
fn blanks_are_taken_out_in_order() {
    let clean: String = strip_blanks(" a\tb\r\nc  d ").into_iter().collect();
    assert_eq!(clean, "abcd");
}

#[test]
fn keyword_split_by_a_newline_matches() {
    assert!(mentions_target("武\n汉医学院 news"));
}

#[test]
fn text_without_keyword_does_not_match() {
    assert!(!mentions_target("Wuhan"));
}

#[test]
fn word_is_found_at_the_end() {
    assert!(has_word(&chars_of("xxabc"), &chars_of("abc")));
    assert!(!has_word(&chars_of("xxab"), &chars_of("abc")));
}

#[test]
fn every_keyword_matches_itself() {
    assert_eq!(
        TARGETS,
        ["华中工学院", "华中科技大学", "华中理工大学", "同济", "武汉医学院"]
    );
    for keyword in TARGETS {
        assert!(mentions_target(keyword));
        let spaced: String = keyword.chars().flat_map(|c| [c, ' ', '\n']).collect();
        assert!(mentions_target(&spaced));
    }
}

#[test]
fn match_is_case_sensitive_and_contiguous() {
    assert!(!mentions_target("华中x工学院"));
    assert!(!mentions_target("济同"));
    assert!(!mentions_target(""));
    assert!(mentions_target("前同\t济后"));
}

#[test]
fn empty_word_is_part_of_every_text() {
    assert!(has_word(&chars_of("abc"), &chars_of("")));
    assert!(has_word(&chars_of(""), &chars_of("")));
    assert!(!has_word(&chars_of(""), &chars_of("a")));
}

#[test]
fn characters_are_not_bytes() {
    assert_eq!(chars_of("同济a"), vec!['同', '济', 'a']);
}

#[test]
fn first_keyword_is_named_by_its_position() {
    assert_eq!(first_target("武\n汉医学院 news"), Some(4));
    assert_eq!(first_target("同济 与 华中工学院"), Some(0));
    assert_eq!(first_target("同济 与 华中理工大学"), Some(2));
    assert_eq!(first_target("同 济"), Some(3));
    assert_eq!(first_target("Wuhan"), None);
    assert_eq!(first_target(""), None);
}
