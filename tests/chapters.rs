use robin_core::chapter::{apply_filter, filter_chapters, merge_chapters, Chapter};
use robin_core::error::RobinError;
use robin_core::sources::novelfullcom_english::NovelFullComChapter;

fn chapter(title: &str, url: &str) -> NovelFullComChapter {
    NovelFullComChapter::new(title.to_string(), url.to_string()).ok().unwrap()
}

fn numbered(n: u32) -> Vec<NovelFullComChapter> {
    (1..=n).map(|i| chapter(&format!("Chapter {}", i), &format!("https://novelfull.com/c{}", i))).collect()
}

fn nums(v: &Vec<NovelFullComChapter>) -> Vec<i64> {
    v.iter().map(|c| c.chapter_num()).collect()
}

#[test]
fn new_chapter_without_number_fails() {
    let r = NovelFullComChapter::new("Epilogue".to_string(), "u".to_string());
    assert!(matches!(r, Err(RobinError::Parse(_))));
}

#[test]
fn filter_keeps_range_in_order() {
    let mut v = numbered(10);
    apply_filter(&mut v, 300, 700);
    assert_eq!(nums(&v), vec![300, 400, 500, 600, 700]);
}

#[test]
fn filter_is_idempotent() {
    let mut v = numbered(10);
    apply_filter(&mut v, 250, 800);
    let once = nums(&v);
    apply_filter(&mut v, 250, 800);
    assert_eq!(nums(&v), once);
    assert_eq!(once, vec![300, 400, 500, 600, 700, 800]);
}

#[test]
fn filter_keeps_discovery_order() {
    let mut v = vec![
        chapter("Chapter 5", "a"),
        chapter("Chapter 2", "b"),
        chapter("Chapter 9", "c"),
        chapter("Chapter 3", "d"),
    ];
    apply_filter(&mut v, 200, 500);
    assert_eq!(nums(&v), vec![500, 200, 300]);
}

#[test]
fn filter_text_empty_keeps_all() {
    let mut v = numbered(4);
    assert!(filter_chapters(&mut v, "").is_ok());
    assert_eq!(v.len(), 4);
}

#[test]
fn filter_text_selects_chapters() {
    let mut v = numbered(10);
    assert!(filter_chapters(&mut v, "3:7").is_ok());
    assert_eq!(nums(&v), vec![300, 400, 500, 600, 700]);
}

#[test]
fn filter_text_with_decimals() {
    let mut v = vec![chapter("Ch 1", "a"), chapter("Ch 1.5", "b"), chapter("Ch 2", "c")];
    assert!(filter_chapters(&mut v, "1.5:1.5").is_ok());
    assert_eq!(nums(&v), vec![150]);
}

#[test]
fn filter_text_malformed_changes_nothing() {
    let mut v = numbered(3);
    assert!(matches!(filter_chapters(&mut v, "x:2"), Err(RobinError::Parse(_))));
    assert_eq!(v.len(), 3);
}

#[test]
fn merge_skips_known_locators() {
    let mut v = vec![chapter("Chapter 1", "u1"), chapter("Chapter 2", "u2")];
    let new = vec![chapter("Chapter 2 again", "u2"), chapter("Chapter 3", "u3"), chapter("Chapter 3b", "u3")];
    merge_chapters(&mut v, new);
    let urls: Vec<String> = v.iter().map(|c| c.url().clone()).collect();
    assert_eq!(urls, vec!["u1", "u2", "u3"]);
    assert_eq!(nums(&v), vec![100, 200, 300]);
}
