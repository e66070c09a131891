use html2md::dedup::{
    deduplicate_content, format_output_exec, is_repeated_pattern, normalize_for_dedup,
    strings_similar_exec,
};

fn chars(s: &str) -> Vec<char> {
    s.chars().collect()
}

fn text(v: &[char]) -> String {
    v.iter().collect()
}

fn items(xs: &[&str]) -> Vec<Vec<char>> {
    xs.iter().map(|s| chars(s)).collect()
}

#[test]
fn repeated_pattern_needs_three_copies() {
    assert!(is_repeated_pattern(&chars("abcabcabc")));
    assert!(is_repeated_pattern(&chars("---")));
    assert!(!is_repeated_pattern(&chars("abab")));
    assert!(!is_repeated_pattern(&chars("abcd")));
    assert!(!is_repeated_pattern(&chars("")));
}

#[test]
fn similar_strings() {
    assert!(strings_similar_exec(&chars("hello"), &chars("hello")));
    assert!(strings_similar_exec(&chars("hello world"), &chars("hello worlds")));
    assert!(!strings_similar_exec(&chars("Before"), &chars("After")));
    assert!(strings_similar_exec(&chars("Before"), &chars("---")));
    assert!(strings_similar_exec(
        &chars("one two three four five six"),
        &chars("zero one two three four five")
    ));
    assert!(!strings_similar_exec(
        &chars("one two three four five"),
        &chars("one two six seven eight")
    ));
}

#[test]
fn normalization_strips_marks_and_case() {
    let n = normalize_for_dedup(&chars("**Bold**  `Code` [Link](http://x)  Word"));
    assert_eq!(text(&n), "bold code link word");
}

#[test]
fn dedup_keeps_first_of_equal_items() {
    let out = deduplicate_content(&items(&["Alpha beta", "Alpha beta", "Gamma delta"]));
    assert_eq!(text(&out), "Alpha beta\n\nGamma delta");
}

#[test]
fn dedup_drops_blank_and_boilerplate() {
    let out = deduplicate_content(&items(&["  ", "Sign up today", "Privacy Policy", "Kept text"]));
    assert_eq!(text(&out), "Kept text");
}

#[test]
fn dedup_compares_normalized_forms() {
    let out = deduplicate_content(&items(&["**Some Heading Text**", "some heading text"]));
    assert_eq!(text(&out), "**Some Heading Text**");
}

#[test]
fn format_spacing() {
    let out = format_output_exec(&items(&[
        "# H",
        "text",
        "- a",
        "- b",
        "```\ncode\n```",
        "after",
    ]));
    assert_eq!(text(&out), "# H\n\ntext\n- a\n- b\n\n```\ncode\n```\n\nafter");
}

#[test]
fn format_skips_blank_lines_and_trims() {
    let out = format_output_exec(&items(&["  one  ", "", "   ", "two"]));
    assert_eq!(text(&out), "one\n\ntwo");
}

#[test]
fn format_of_nothing_is_empty() {
    let out = format_output_exec(&items(&[]));
    assert_eq!(text(&out), "");
}

#[test]
fn repetitions_of_three_or_more_are_detected() {
    assert!(is_repeated_pattern(&chars(&"xyz".repeat(4))));
    assert!(is_repeated_pattern(&chars(&"ab".repeat(3))));
    assert!(!is_repeated_pattern(&chars(&"ab".repeat(2))));
}
