use robin_core::chapter::Chapter;
use robin_core::error::RobinError;
use robin_core::info::format_info;
use robin_core::matcher::{match_manga, match_novel, MangaSource, NovelSource};
use robin_core::args::NovelFormat;
use robin_core::sources::novelfullcom_english::{
    chapters_of_links, chapters_of_page, page_number_of_links, NovelFullCom, NovelFullComChapter,
};
use robin_core::sources::Serie;
use robin_core::sources::shijie_turkish::{chapters_of_entries, ShijieTurkish, ShijieTurkishChapter};

const NOVEL_LANDING: &str = r#"<html><body>
<div class="book"><img data-cfsrc="/uploads/cover.jpg"></div>
<div class="info">
<div><a>Ann</a><a>Bob</a></div>
<div>Other Name</div>
<div><a>Fantasy</a><a>Drama</a></div>
<div>Web</div>
<div><a>Ongoing</a></div>
</div>
<ul class="pagination"><li class="last"><a href="/solo.html?page=3">Last</a></li></ul>
</body></html>"#;

const NOVEL_LISTING: &str = r#"<html><body>
<div class="col-sm-6"><ul>
<li><a href="/solo/chapter-1.html">Chapter 1</a></li>
<li><a href="https://mirror.example/chapter-2.html">Chapter 2: Return</a></li>
</ul></div>
</body></html>"#;

const MANGA_LANDING: &str = r#"<html><body>
<img class="attachment-" src="https://shijiescans.com/cover.png">
<h1 class="entry-title">Solo</h1>
<div class="entry-content"><p>Line one
line two</p></div>
<div class="mgen"><a>Action</a><a>Drama</a></div>
<div id="chapterlist"><ul>
<li><div><div><a href="https://shijiescans.com/solo-2"><span>Bölüm 2</span><span>2 Ocak</span></a></div></div></li>
<li><div><div><a href="https://shijiescans.com/solo-1"><span>Bölüm 1</span><span>1 Ocak</span></a></div></div></li>
</ul></div>
</body></html>"#;

#[test]
fn routes_manga_locators() {
    assert_eq!(match_manga("https://shijiescans.com/manga/solo").ok(), Some(MangaSource::ShijieTurkish));
    assert!(matches!(match_manga("https://example.com/solo"), Err(RobinError::UnsupportedSource)));
    assert!(matches!(match_manga("https://novelfull.com/solo.html"), Err(RobinError::UnsupportedSource)));
}

#[test]
fn routes_novel_locators() {
    assert_eq!(match_novel("https://novelfull.com/solo.html").ok(), Some(NovelSource::NovelFullCom));
    assert!(matches!(match_novel("http://novelfull.com/solo.html"), Err(RobinError::UnsupportedSource)));
    assert!(matches!(match_novel(""), Err(RobinError::UnsupportedSource)));
}

#[test]
fn novel_format_names() {
    assert_eq!(NovelFormat::default().as_str(), "txt");
    assert_eq!(NovelFormat::Epub.as_str(), "epub");
}

#[test]
fn novel_last_page_and_listing_urls() {
    let n = NovelFullCom::new("https://novelfull.com/solo.html".to_string(), NOVEL_LANDING.to_string());
    assert_eq!(n.last_page_number().ok(), Some(3));
    let urls = n.page_urls(3);
    assert_eq!(urls, vec![
        "https://novelfull.com/solo.html?page=1",
        "https://novelfull.com/solo.html?page=2",
        "https://novelfull.com/solo.html?page=3",
    ]);
}

#[test]
fn novel_without_pagination_fails() {
    let n = NovelFullCom::new("https://novelfull.com/x.html".to_string(), "<html></html>".to_string());
    assert!(matches!(n.last_page_number(), Err(RobinError::Parse(_))));
    assert!(matches!(n.cover_url(), Err(RobinError::Parse(_))));
}

#[test]
fn novel_chapters_from_listing() {
    let v = chapters_of_page(NOVEL_LISTING).ok().unwrap();
    assert_eq!(v.len(), 2);
    assert_eq!(v[0].title(), "Chapter 1");
    assert_eq!(v[0].url(), "https://novelfull.com/solo/chapter-1.html");
    assert_eq!(v[1].url(), "https://mirror.example/chapter-2.html");
    assert_eq!(v[1].chapter_num(), 200);
}

#[test]
fn novel_listing_with_unnumbered_title_fails() {
    let page = r#"<div class="col-sm-6"><ul><li><a href="/a">Prologue</a></li></ul></div>"#;
    assert!(matches!(chapters_of_page(page), Err(RobinError::Parse(_))));
}

#[test]
fn novel_discovery_deduplicates() {
    let mut n = NovelFullCom::new("https://novelfull.com/solo.html".to_string(), NOVEL_LANDING.to_string());
    assert!(n.find_chapters_in_page(NOVEL_LISTING).is_ok());
    assert!(n.find_chapters_in_page(NOVEL_LISTING).is_ok());
    assert_eq!(n.chapter_count(), 2);
    assert!(n.filter_chapters("2:5").is_ok());
    assert_eq!(n.chapter_count(), 1);
    let taken = n.take_chapters();
    assert_eq!(taken.len(), 1);
    assert_eq!(n.chapter_count(), 0);
}

#[test]
fn novel_cover_and_info() {
    let n = NovelFullCom::new("https://novelfull.com/solo.html".to_string(), NOVEL_LANDING.to_string());
    assert_eq!(n.cover_url().ok(), Some("https://novelfull.com/uploads/cover.jpg".to_string()));
    assert_eq!(n.details(), None);
    let info = n.info();
    assert_eq!(
        format_info(&info),
        "Author: Ann, Bob\nAlternative names: Other Name\nGenres: Fantasy, Drama\nSource: Web\nStatus: Ongoing\n"
    );
}

#[test]
fn novel_chapter_content_and_info() {
    let mut c = NovelFullComChapter::new("Chapter 4".to_string(), "u4".to_string()).ok().unwrap();
    c.set_content_from_page(r#"<div id="chapter-content"><p>Hello there.</p><p>General Kenobi!</p></div>"#);
    assert_eq!(c.content(), "Hello there.\n\nGeneral Kenobi!");
    assert_eq!(c.file_name(), "Chapter 4.txt");
    assert_eq!(
        format_info(&c.info()),
        "Title: Chapter 4\nSource: u4\nWord count: 4\nCharacter count: 29\n"
    );
    c.clear_content();
    assert_eq!(c.content(), "");
}

#[test]
fn manga_chapters_from_landing() {
    let mut m = ShijieTurkish::new("https://shijiescans.com/manga/solo".to_string(), MANGA_LANDING.to_string());
    assert!(m.find_chapters().is_ok());
    assert_eq!(m.chapter_count(), 2);
    let c = &m.chapters()[0];
    assert_eq!(c.name(), "Bölüm 2");
    assert_eq!(c.date(), "2 Ocak");
    assert_eq!(c.url(), "https://shijiescans.com/solo-2");
    assert_eq!(c.chapter_num(), 200);
    assert!(m.find_chapters().is_ok());
    assert_eq!(m.chapter_count(), 2);
}

#[test]
fn manga_cover_info_and_details() {
    let mut m = ShijieTurkish::new("https://shijiescans.com/manga/solo".to_string(), MANGA_LANDING.to_string());
    assert!(m.find_chapters().is_ok());
    assert_eq!(m.cover_url().ok(), Some("https://shijiescans.com/cover.png".to_string()));
    assert_eq!(
        format_info(&m.info()),
        "Title: Solo\nDescription: Line one line two\nGenres: \"Action\", \"Drama\"\nChapter count: 2\n"
    );
    assert_eq!(
        m.details().unwrap(),
        "{\"title\": \"Solo\", \"author\": \"\", \"artist\": \"\", \"description\": \"Line one line two\", \"genre\": [\"Action\", \"Drama\"], \"status\": \"0\"}\n"
    );
}

#[test]
fn manga_listing_missing_link_fails() {
    let page = r#"<div id="chapterlist"><ul><li><div><div><a><span>Bölüm 1</span><span>d</span></a></div></div></li></ul></div>"#;
    let mut m = ShijieTurkish::new("u".to_string(), page.to_string());
    assert!(matches!(m.find_chapters(), Err(RobinError::Parse(_))));
    assert_eq!(m.chapter_count(), 0);
}

#[test]
fn manga_image_script() {
    let page = r#"<html><body><div class="wrapper"><p>x</p><script>ts_reader.run({"sources":[{"images":["a.jpg"]}]});</script></div></body></html>"#;
    assert_eq!(
        ShijieTurkishChapter::images_json(page).ok(),
        Some("{\"sources\":[{\"images\":[\"a.jpg\"]}]}".to_string())
    );
    assert!(matches!(ShijieTurkishChapter::images_json("<p></p>"), Err(RobinError::Parse(_))));
}

#[test]
fn manga_pages_named_by_response() {
    let mut c = ShijieTurkishChapter::new("Bölüm 3".to_string(), "d".to_string(), "u".to_string()).ok().unwrap();
    c.set_page_urls(vec!["https://a/1.jpg".to_string(), "https://a/2.jpg".to_string()]);
    assert_eq!(c.page_count(), 2);
    c.add_page("https://cdn.a/1.webp", vec![1, 2]);
    c.add_page("https://cdn.a/2.png", vec![3]);
    let names: Vec<String> = c.page_data().iter().map(|p| p.0.clone()).collect();
    assert_eq!(names, vec!["0000.webp", "0001.png"]);
    assert_eq!(c.page_data()[0].1, vec![1, 2]);
    assert_eq!(
        format_info(&c.info()),
        "Name: Bölüm 3\nRelease date: d\nSource: u\nPage count: 2\n"
    );
    c.clear_pages();
    assert_eq!(c.page_data().len(), 0);
}

fn some(s: &str) -> Option<String> {
    Some(s.to_string())
}

#[test]
fn page_number_from_link_targets() {
    assert_eq!(page_number_of_links(&vec![some("/a.html?page=42"), some("/b?page=1")]).ok(), Some(42));
    assert_eq!(page_number_of_links(&vec![some("/a?x=1&page=7")]).ok(), Some(7));
    assert!(matches!(page_number_of_links(&vec![some("/a.html")]), Err(RobinError::Parse(_))));
    assert!(matches!(page_number_of_links(&vec![some("/a?page=")]), Err(RobinError::Parse(_))));
    assert!(matches!(page_number_of_links(&vec![some("/a?page=0")]), Err(RobinError::Parse(_))));
    assert!(matches!(page_number_of_links(&vec![None]), Err(RobinError::Parse(_))));
    assert!(matches!(page_number_of_links(&Vec::new()), Err(RobinError::Parse(_))));
}

#[test]
fn chapters_from_given_links() {
    let titles = vec!["Chapter 1".to_string(), "Chapter 1.5".to_string()];
    let hrefs = vec![some("/c1"), some("http://elsewhere/c2")];
    let v = chapters_of_links(titles, hrefs).ok().unwrap();
    assert_eq!(v[0].url(), "https://novelfull.com/c1");
    assert_eq!(v[1].url(), "http://elsewhere/c2");
    assert_eq!(v[1].chapter_num(), 150);
    let r = chapters_of_links(vec!["Chapter 1".to_string()], vec![]);
    assert!(matches!(r, Err(RobinError::Parse(_))));
    let r = chapters_of_links(vec!["Chapter 1".to_string()], vec![None]);
    assert!(matches!(r, Err(RobinError::Parse(_))));
}

#[test]
fn chapters_from_given_entries() {
    let v = chapters_of_entries(
        vec![some("Bölüm 7"), some("Bölüm 8")],
        vec![some("d7"), some("d8")],
        vec![Some(some("u7")), Some(some("u8"))],
    )
    .ok()
    .unwrap();
    assert_eq!(v.len(), 2);
    assert_eq!(v[1].name(), "Bölüm 8");
    assert_eq!(v[1].date(), "d8");
    assert_eq!(v[1].chapter_num(), 800);
    let r = chapters_of_entries(vec![some("Bölüm 7")], vec![some("d7")], vec![Some(None)]);
    assert!(matches!(r, Err(RobinError::Parse(_))));
    let r = chapters_of_entries(vec![some("Özel")], vec![some("d")], vec![Some(some("u"))]);
    assert!(matches!(r, Err(RobinError::Parse(_))));
}

#[test]
fn image_json_from_given_scripts() {
    let scripts = vec!["ts_reader.run({\"a\":1});".to_string()];
    assert_eq!(ShijieTurkishChapter::json_of_scripts(&scripts).ok(), Some("{\"a\":1}".to_string()));
    assert!(matches!(ShijieTurkishChapter::json_of_scripts(&vec!["short".to_string()]), Err(RobinError::Parse(_))));
}
