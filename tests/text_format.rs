use robin_core::info::{find_in_info, format_info};
use robin_core::staging::{
    cover_file_name, details_json, page_file_name, status_to_code, text_chapter_file_name,
    to_json_string,
};
use robin_core::text::{
    capitalize, join, replace_char, starts_with, text_after_last, to_decimal, trim, word_count,
};

fn rows(pairs: &[(&str, &str)]) -> Vec<(String, String)> {
    pairs.iter().map(|(k, v)| (k.to_string(), v.to_string())).collect()
}

#[test]
fn capitalize_first_letter() {
    assert_eq!(capitalize("title"), "Title");
    assert_eq!(capitalize("word count"), "Word count");
    assert_eq!(capitalize(""), "");
    assert_eq!(capitalize("ärger"), "Ärger");
    assert_eq!(capitalize("1st"), "1st");
}

#[test]
fn format_info_lines() {
    let info = rows(&[("title", "Solo"), ("alternative names", "A, B")]);
    assert_eq!(format_info(&info), "Title: Solo\nAlternative names: A, B\n");
    assert_eq!(format_info(&Vec::new()), "");
}

#[test]
fn find_in_info_first_match() {
    let info = rows(&[("title", "One"), ("author", "X"), ("title", "Two")]);
    assert_eq!(find_in_info(&info, "title"), Some("One".to_string()));
    assert_eq!(find_in_info(&info, "author"), Some("X".to_string()));
    assert_eq!(find_in_info(&info, "status"), None);
}

#[test]
fn word_count_splits_on_whitespace() {
    assert_eq!(word_count("  hello  world\n foo "), 3);
    assert_eq!(word_count(""), 0);
    assert_eq!(word_count("   "), 0);
    assert_eq!(word_count("one"), 1);
}

#[test]
fn decimal_text() {
    assert_eq!(to_decimal(0), "0");
    assert_eq!(to_decimal(1234), "1234");
    assert_eq!(to_decimal(u64::MAX), "18446744073709551615");
}

#[test]
fn text_after_last_point() {
    assert_eq!(text_after_last("https://cdn.x/a.b/c.jpg", '.'), "jpg");
    assert_eq!(text_after_last("noext", '.'), "noext");
    assert_eq!(text_after_last("end.", '.'), "");
}

#[test]
fn prefixes() {
    assert!(starts_with("https://novelfull.com/x", "https://novelfull.com"));
    assert!(!starts_with("https://novel", "https://novelfull.com"));
    assert!(starts_with("abc", ""));
}

#[test]
fn join_and_replace() {
    let parts = vec!["a".to_string(), "b".to_string(), "c".to_string()];
    assert_eq!(join(&parts, ", "), "a, b, c");
    assert_eq!(join(&Vec::new(), ", "), "");
    assert_eq!(replace_char("a\nb\n", '\n', ' '), "a b ");
}

#[test]
fn staging_names() {
    assert_eq!(cover_file_name("jpg"), "cover.jpg");
    assert_eq!(text_chapter_file_name("Chapter 3"), "Chapter 3.txt");
}

#[test]
fn page_names_use_final_url_extension() {
    assert_eq!(page_file_name(3, "https://cdn.example.com/x/abc.webp"), "0003.webp");
    assert_eq!(page_file_name(0, "https://a.b/c.png"), "0000.png");
    assert_eq!(page_file_name(12345, "https://a.b/c.png"), "12345.png");
}

#[test]
fn status_codes() {
    assert_eq!(status_to_code("Devam Ediyor"), 1);
    assert_eq!(status_to_code("Final"), 2);
    assert_eq!(status_to_code("Sezon Finali"), 6);
    assert_eq!(status_to_code("Askıda"), 6);
    assert_eq!(status_to_code("Unknown"), 0);
    assert_eq!(status_to_code(""), 0);
}

#[test]
fn json_strings_are_escaped() {
    assert_eq!(to_json_string("a\"b\\c\nd\u{1}"), "\"a\\\"b\\\\c\\nd\\u0001\"");
}

#[test]
fn details_document() {
    let genres = vec!["Action".to_string(), "Drama".to_string()];
    let d = details_json("Solo", "  Ann ", "Bob", " Long story ", &genres, "Final");
    assert_eq!(
        d,
        "{\"title\": \"Solo\", \"author\": \"Ann\", \"artist\": \"Bob\", \"description\": \"Long story\", \"genre\": [\"Action\", \"Drama\"], \"status\": \"2\"}\n"
    );
}

#[test]
fn trim_both_ends() {
    assert_eq!(trim("  a b \n"), "a b");
    assert_eq!(trim("\t\u{a0}x"), "x");
    assert_eq!(trim("   "), "");
    assert_eq!(trim(""), "");
    assert_eq!(trim("a"), "a");
}
