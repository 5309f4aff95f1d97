use scaffer::text::{
    chars_of, has_occurrence, matches_at, replace_all, split_on, string_of, strip_suffix,
};

#[test]
fn replace_all_replaces_every_occurrence() {
    assert_eq!(replace_all("a-b-c", "-", "+"), "a+b+c");
    assert_eq!(replace_all("{{x}} and {{x}}", "{{x}}", "y"), "y and y");
}

#[test]
fn replace_all_keeps_text_without_occurrence() {
    assert_eq!(replace_all("nothing here", "{{project_name}}", "demo"), "nothing here");
    assert_eq!(replace_all("", "abc", "x"), "");
}

#[test]
fn replace_all_scans_from_the_left_without_overlap() {
    assert_eq!(replace_all("aaa", "aa", "b"), "ba");
    assert_eq!(replace_all("aaaa", "aa", "b"), "bb");
    assert_eq!(replace_all("ababa", "aba", "x"), "xba");
}

#[test]
fn replace_all_does_not_rescan_what_it_wrote() {
    assert_eq!(replace_all("ab", "b", "bb"), "abb");
    assert_eq!(replace_all("x", "x", "xx"), "xx");
}

#[test]
fn replace_all_with_empty_pattern_changes_nothing() {
    assert_eq!(replace_all("abc", "", "-"), "abc");
}

#[test]
fn replace_all_handles_pattern_at_both_ends() {
    assert_eq!(replace_all(".json.json", ".json", ""), "");
    assert_eq!(replace_all("ab", "abc", "x"), "ab");
}

#[test]
fn replace_all_works_on_characters_not_bytes() {
    assert_eq!(replace_all("grüße {{n}} ñ", "{{n}}", "wörld"), "grüße wörld ñ");
}

#[test]
fn strip_suffix_takes_the_suffix_off_once() {
    assert_eq!(strip_suffix("rust.json", ".json"), "rust");
    assert_eq!(strip_suffix("a.json.json", ".json"), "a.json");
    assert_eq!(strip_suffix(".json", ".json"), "");
}

#[test]
fn strip_suffix_leaves_other_texts_alone() {
    assert_eq!(strip_suffix("notes.txt", ".json"), "notes.txt");
    assert_eq!(strip_suffix("a.json.bak", ".json"), "a.json.bak");
    assert_eq!(strip_suffix("son", ".json"), "son");
    assert_eq!(strip_suffix("", ".json"), "");
    assert_eq!(strip_suffix("abc", ""), "abc");
    assert_eq!(strip_suffix("größe", "e"), "größ");
}

#[test]
fn has_occurrence_finds_substrings() {
    assert!(has_occurrence("python", "py"));
    assert!(has_occurrence("python", "thon"));
    assert!(has_occurrence("python", "python"));
    assert!(!has_occurrence("ruby", "py"));
    assert!(!has_occurrence("py", "python"));
}

#[test]
fn has_occurrence_observes_letter_case() {
    assert!(!has_occurrence("Python", "py"));
    assert!(has_occurrence("Python", "Py"));
}

#[test]
fn has_occurrence_of_empty_pattern() {
    assert!(has_occurrence("abc", ""));
    assert!(has_occurrence("", ""));
    assert!(!has_occurrence("", "a"));
}

#[test]
fn matches_at_checks_one_position() {
    let text = chars_of("hello");
    let pattern = chars_of("ll");
    assert!(matches_at(&text, &pattern, 2));
    assert!(!matches_at(&text, &pattern, 1));
    assert!(!matches_at(&text, &pattern, 4));
    assert!(!matches_at(&text, &pattern, 9));
    assert!(matches_at(&text, &chars_of(""), 5));
}

#[test]
fn chars_and_strings_convert_both_ways() {
    let chars = chars_of("añb");
    assert_eq!(chars, vec!['a', 'ñ', 'b']);
    assert_eq!(string_of(&chars, 0, 3), "añb");
    assert_eq!(string_of(&chars, 1, 2), "ñ");
    assert_eq!(string_of(&chars, 2, 2), "");
}

#[test]
fn split_on_separates_at_every_separator() {
    assert_eq!(split_on("src,assets", ','), vec!["src", "assets"]);
    assert_eq!(split_on("a,b,c", ','), vec!["a", "b", "c"]);
    assert_eq!(split_on("single", ','), vec!["single"]);
}

#[test]
fn split_on_keeps_empty_parts_and_spaces() {
    assert_eq!(split_on("", ','), vec![""]);
    assert_eq!(split_on(",", ','), vec!["", ""]);
    assert_eq!(split_on("a,,b,", ','), vec!["a", "", "b", ""]);
    assert_eq!(split_on("src, assets", ','), vec!["src", " assets"]);
}

#[test]
fn split_parts_joined_give_the_text_back() {
    for text in ["", ",", "a,b", ",a,,b,", "no separator"] {
        let parts = split_on(text, ',');
        assert_eq!(parts.join(","), text);
        assert!(parts.iter().all(|part| !part.contains(',')));
    }
}
