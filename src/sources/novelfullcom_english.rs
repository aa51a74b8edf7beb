use vstd::prelude::*;
use vstd::string::*;

use crate::chapter::{
    chapters_wf, merge_chapters, merged, Chapter,
};
use crate::decimal::{count_of, parse_count};
use crate::error::RobinError;
use crate::sources::Serie;
use crate::html::{options_view, select_attrs, select_texts, selected_attrs, selected_texts};
use crate::info::{
    first_text, list_row, optional_row, push_first_text, push_joined_texts, push_row, rows_view,
};
use crate::ordinal::{chapter_ordinal, ordinal_of_title};
use crate::staging::{text_chapter_file_name, text_chapter_name};
use crate::text::{
    after_last, decimal_text, has_prefix, join, joined, push_decimal, starts_with,
    has_char, text_after_last, texts_view, to_decimal, word_count, word_count_of,
};

verus! {

pub const BASE_URL: &'static str = "https://novelfull.com";

pub const LAST_PAGE_SELECTOR: &'static str = ".last > a:nth-child(1)";

pub const CHAPTER_LINK_SELECTOR: &'static str = "div.col-sm-6 > ul:nth-child(1) > li > a";

pub const COVER_SELECTOR: &'static str = ".book > img:nth-child(1)";

pub const CONTENT_SELECTOR: &'static str = "#chapter-content > p";

pub const TITLE_SELECTOR: &'static str = "div.col-xs-12:nth-child(3) > h3:nth-child(1)";

pub const AUTHOR_SELECTOR: &'static str = ".info > div:nth-child(1) > a";

pub const ALTERNATIVE_NAMES_SELECTOR: &'static str = ".info > div:nth-child(2)";

pub const GENRES_SELECTOR: &'static str = ".info > div:nth-child(3) > a";

pub const SOURCE_SELECTOR: &'static str = ".info > div:nth-child(4)";

pub const STATUS_SELECTOR: &'static str = ".info > div:nth-child(5) > a";

/// One chapter of a novel: its title, locator and, once fetched, its text.
pub struct NovelFullComChapter {
    title: String,
    url: String,
    content: String,
    number: i64,
}

impl Chapter for NovelFullComChapter {
    closed spec fn ordinal(&self) -> int {
        self.number as int
    }

    closed spec fn locator(&self) -> Seq<char> {
        self.url@
    }

    open spec fn wf(&self) -> bool {
        ordinal_of_title(self.title_view()) == Some(self.ordinal())
    }

    fn chapter_num(&self) -> (r: i64) {
        self.number
    }

    fn url(&self) -> (r: &String) {
        &self.url
    }
}

/// The chapter text of a chapter page: its paragraphs, separated by blank
/// lines.
pub open spec fn page_content(page: Seq<char>) -> Seq<char> {
    joined(selected_texts(page, CONTENT_SELECTOR@), "\n\n"@)
}

/// The rows describing a chapter.
pub open spec fn chapter_rows(title: Seq<char>, url: Seq<char>, content: Seq<char>) -> Seq<
    (Seq<char>, Seq<char>),
> {
    seq![
        ("title"@, title),
        ("source"@, url),
        ("word count"@, decimal_text(word_count_of(content))),
        ("character count"@, decimal_text(content.len())),
    ]
}

impl NovelFullComChapter {
    pub closed spec fn title_view(&self) -> Seq<char> {
        self.title@
    }

    pub closed spec fn content_view(&self) -> Seq<char> {
        self.content@
    }

    /// A chapter with no text yet; a title without a number is an error.
    pub fn new(title: String, url: String) -> (r: Result<NovelFullComChapter, RobinError>)
        ensures
            match r {
                Ok(c) => {
                    &&& c.title_view() == title@
                    &&& c.locator() == url@
                    &&& c.content_view().len() == 0
                    &&& c.wf()
                },
                Err(e) => ordinal_of_title(title@) is None && e is Parse,
            },
    {
        match chapter_ordinal(title.as_str()) {
            Ok(number) => Ok(NovelFullComChapter { title, url, content: String::new(), number }),
            Err(e) => Err(e),
        }
    }

    pub fn title(&self) -> (r: &String)
        ensures
            r@ == self.title_view(),
    {
        &self.title
    }

    pub fn content(&self) -> (r: &String)
        ensures
            r@ == self.content_view(),
    {
        &self.content
    }

    /// Takes the chapter's text from its page.
    pub fn set_content_from_page(&mut self, page: &str)
        ensures
            final(self).content_view() == page_content(page@),
            final(self).title_view() == old(self).title_view(),
            final(self).locator() == old(self).locator(),
            final(self).ordinal() == old(self).ordinal(),
    {
        let paragraphs = select_texts(page, CONTENT_SELECTOR);
        self.content = join(&paragraphs, "\n\n");
    }

    /// Drops the chapter's text once it is written.
    pub fn clear_content(&mut self)
        ensures
            final(self).content_view().len() == 0,
            final(self).title_view() == old(self).title_view(),
            final(self).locator() == old(self).locator(),
            final(self).ordinal() == old(self).ordinal(),
    {
        self.content = String::new();
    }

    /// The chapter's title, locator, word count and character count.
    pub fn info(&self) -> (r: Vec<(String, String)>)
        ensures
            rows_view(r@) == chapter_rows(self.title_view(), self.locator(), self.content_view()),
    {
        let mut rows: Vec<(String, String)> = Vec::new();
        push_row(&mut rows, "title", self.title.clone());
        push_row(&mut rows, "source", self.url.clone());
        let words = word_count(self.content.as_str());
        push_row(&mut rows, "word count", to_decimal(words as u64));
        let chars = self.content.as_str().unicode_len();
        push_row(&mut rows, "character count", to_decimal(chars as u64));
        assert(rows_view(rows@) =~= chapter_rows(
            self.title_view(),
            self.locator(),
            self.content_view(),
        ));
        rows
    }

    /// The file the chapter's text is staged in: its title and `.txt`.
    pub fn file_name(&self) -> (r: String)
        ensures
            r@ == text_chapter_name(self.title_view()),
    {
        text_chapter_file_name(self.title.as_str())
    }
}

/// The number of the last listing page, from the link to it on the
/// landing page: what follows the last `=` of its target.
pub open spec fn last_page_of(page: Seq<char>) -> Option<int> {
    last_page_of_links(selected_attrs(page, LAST_PAGE_SELECTOR@, "href"@))
}

/// The page number in the first of the targets of the links to the last
/// listing page: what follows its last `=`. Pages are numbered from 1.
pub open spec fn last_page_of_links(hrefs: Seq<Option<Seq<char>>>) -> Option<int> {
    if hrefs.len() > 0 {
        match hrefs[0] {
            Some(h) => if h.contains('=') {
                match count_of(after_last(h, '=')) {
                    Some(n) => if n >= 1 {
                        Some(n)
                    } else {
                        None
                    },
                    None => None,
                }
            } else {
                None
            },
            None => None,
        }
    } else {
        None
    }
}

/// The locator of listing page `n` of the series at `url`.
pub open spec fn listing_url(url: Seq<char>, n: nat) -> Seq<char> {
    url + "?page="@ + decimal_text(n)
}

/// A chapter link made absolute: links that start with `http` stand as
/// they are, others are taken from the site's root.
pub open spec fn absolute_url(href: Seq<char>) -> Seq<char> {
    if has_prefix(href, "http"@) {
        href
    } else {
        BASE_URL@ + href
    }
}

/// The rows describing a novel, from its landing page; fields the page
/// lacks are left out.
pub open spec fn novel_rows(page: Seq<char>) -> Seq<(Seq<char>, Seq<char>)> {
    optional_row("title"@, first_text(page, TITLE_SELECTOR@)) + list_row(
        "author"@,
        selected_texts(page, AUTHOR_SELECTOR@),
        ", "@,
    ) + optional_row("alternative names"@, first_text(page, ALTERNATIVE_NAMES_SELECTOR@))
        + list_row("genres"@, selected_texts(page, GENRES_SELECTOR@), ", "@) + optional_row(
        "source"@,
        first_text(page, SOURCE_SELECTOR@),
    ) + optional_row("status"@, first_text(page, STATUS_SELECTOR@))
}

/// Whether every link on a listing page has a target, with as many titles
/// as targets.
pub open spec fn links_well_formed(page: Seq<char>) -> bool {
    links_ok(
        selected_texts(page, CHAPTER_LINK_SELECTOR@),
        selected_attrs(page, CHAPTER_LINK_SELECTOR@, "href"@),
    )
}

/// Whether every chapter title of a listing page gives an ordinal.
pub open spec fn titles_numbered(page: Seq<char>) -> bool {
    titles_ok(selected_texts(page, CHAPTER_LINK_SELECTOR@))
}

/// Whether every link has a target, with as many titles as targets.
pub open spec fn links_ok(titles: Seq<Seq<char>>, hrefs: Seq<Option<Seq<char>>>) -> bool {
    &&& titles.len() == hrefs.len()
    &&& forall|i: int| 0 <= i < hrefs.len() ==> #[trigger] hrefs[i] is Some
}

/// Whether every title gives an ordinal.
pub open spec fn titles_ok(titles: Seq<Seq<char>>) -> bool {
    forall|i: int| 0 <= i < titles.len() ==> #[trigger] ordinal_of_title(titles[i]) is Some
}

/// The locator of the cover art, from the landing page: its source taken
/// from the site's root, empty where the image gives none.
pub open spec fn cover_of(page: Seq<char>) -> Option<Seq<char>> {
    let srcs = selected_attrs(page, COVER_SELECTOR@, "data-cfsrc"@);
    if srcs.len() > 0 {
        match srcs[0] {
            Some(src) => Some(BASE_URL@ + src),
            None => Some(BASE_URL@),
        }
    } else {
        None
    }
}

/// `v` holds the chapters linked from a listing page, in page order, with
/// no text yet.
pub open spec fn is_page_chapters(v: Seq<NovelFullComChapter>, page: Seq<char>) -> bool {
    is_link_chapters(
        v,
        selected_texts(page, CHAPTER_LINK_SELECTOR@),
        selected_attrs(page, CHAPTER_LINK_SELECTOR@, "href"@),
    )
}

/// `v` holds a chapter for each link, in order, with no text yet.
pub open spec fn is_link_chapters(
    v: Seq<NovelFullComChapter>,
    titles: Seq<Seq<char>>,
    hrefs: Seq<Option<Seq<char>>>,
) -> bool {
    &&& v.len() == titles.len()
    &&& forall|i: int|
        0 <= i < v.len() ==> {
            &&& (#[trigger] v[i]).title_view() == titles[i]
            &&& v[i].locator() == absolute_url(hrefs[i]->0)
            &&& v[i].content_view().len() == 0
            &&& v[i].wf()
        }
}

/// Makes a chapter link absolute (see `absolute_url`).
pub fn absolute_chapter_url(href: &str) -> (r: String)
    ensures
        r@ == absolute_url(href@),
{
    if starts_with(href, "http") {
        String::from_str(href)
    } else {
        let mut u = String::from_str(BASE_URL);
        u.append(href);
        u
    }
}

/// The chapters linked from a listing page, in page order; an error where a
/// link has no target or a title gives no ordinal.
pub fn chapters_of_page(page: &str) -> (r: Result<Vec<NovelFullComChapter>, RobinError>)
    ensures
        match r {
            Ok(v) => links_well_formed(page@) && titles_numbered(page@) && is_page_chapters(v@, page@),
            Err(e) => !(links_well_formed(page@) && titles_numbered(page@)) && e is Parse,
        },
{
    let titles = select_texts(page, CHAPTER_LINK_SELECTOR);
    let hrefs = select_attrs(page, CHAPTER_LINK_SELECTOR, "href");
    chapters_of_links(titles, hrefs)
}

/// A chapter for each link, from its title and target, in order; an error
/// where a link has no target, the counts differ, or a title gives no
/// ordinal.
pub fn chapters_of_links(titles: Vec<String>, hrefs: Vec<Option<String>>) -> (r: Result<
    Vec<NovelFullComChapter>,
    RobinError,
>)
    ensures
        match r {
            Ok(v) => links_ok(texts_view(titles@), options_view(hrefs@)) && titles_ok(
                texts_view(titles@),
            ) && is_link_chapters(v@, texts_view(titles@), options_view(hrefs@)),
            Err(e) => !(links_ok(texts_view(titles@), options_view(hrefs@)) && titles_ok(
                texts_view(titles@),
            )) && e is Parse,
        },
{
    let ghost tv = texts_view(titles@);
    let ghost hv = options_view(hrefs@);
    if titles.len() != hrefs.len() {
        return Err(RobinError::Parse(String::from_str(CHAPTER_LINK_SELECTOR)));
    }
    let mut out: Vec<NovelFullComChapter> = Vec::new();
    let mut i: usize = 0;
    while i < titles.len()
        invariant
            i <= titles@.len() == hrefs@.len(),
            texts_view(titles@) == tv,
            options_view(hrefs@) == hv,
            tv.len() == hv.len(),
            out@.len() == i,
            forall|j: int| 0 <= j < i ==> #[trigger] hv[j] is Some,
            forall|j: int| 0 <= j < i ==> #[trigger] ordinal_of_title(tv[j]) is Some,
            forall|j: int|
                0 <= j < i ==> {
                    &&& (#[trigger] out@[j]).title_view() == tv[j]
                    &&& out@[j].locator() == absolute_url(hv[j]->0)
                    &&& out@[j].content_view().len() == 0
                    &&& out@[j].wf()
                },
        decreases titles.len() - i,
    {
        assert(tv[i as int] == titles@[i as int]@);
        match &hrefs[i] {
            Some(h) => {
                assert(hv[i as int] == Some(h@));
                let url = absolute_chapter_url(h.as_str());
                match NovelFullComChapter::new(titles[i].clone(), url) {
                    Ok(c) => {
                        out.push(c);
                    },
                    Err(e) => {
                        assert(ordinal_of_title(tv[i as int]) is None);
                        assert(!titles_ok(tv));
                        return Err(e);
                    },
                }
            },
            None => {
                assert(!(hv[i as int] is Some));
                assert(!links_ok(tv, hv));
                return Err(RobinError::Parse(String::from_str(CHAPTER_LINK_SELECTOR)));
            },
        }
        i = i + 1;
    }
    Ok(out)
}

/// A novel of novelfull.com: its locator, its landing page and the chapters
/// discovered so far.
pub struct NovelFullCom {
    url: String,
    data: String,
    chapters: Vec<NovelFullComChapter>,
}

impl NovelFullCom {
    /// No two chapters share a locator, and each ordinal is its title's.
    pub open spec fn wf(&self) -> bool {
        chapters_wf(self.chapters_view())
    }

    /// The novel at `url`, whose landing page is `page`, with no chapters
    /// discovered yet.
    pub fn new(url: String, page: String) -> (r: NovelFullCom)
        ensures
            r.url_view() == url@,
            r.page_view() == page@,
            r.chapters_view().len() == 0,
            r.wf(),
    {
        NovelFullCom { url, data: page, chapters: Vec::new() }
    }

    pub fn url(&self) -> (r: &String)
        ensures
            r@ == self.url_view(),
    {
        &self.url
    }

    pub fn chapters(&self) -> (r: &Vec<NovelFullComChapter>)
        ensures
            r@ == self.chapters_view(),
    {
        &self.chapters
    }

    /// The locators of listing pages 1 to `last`.
    pub fn page_urls(&self, last: u64) -> (r: Vec<String>)
        ensures
            r@.len() == last,
            forall|i: int| 0 <= i < last ==> (#[trigger] r@[i])@ == listing_url(self.url_view(), (i + 1) as nat),
    {
        let mut out: Vec<String> = Vec::new();
        let mut n: u64 = 0;
        while n < last
            invariant
                n <= last,
                out@.len() == n,
                forall|i: int| 0 <= i < n ==> (#[trigger] out@[i])@ == listing_url(self.url_view(), (i + 1) as nat),
            decreases last - n,
        {
            let mut u = self.url.clone();
            u.append("?page=");
            push_decimal(&mut u, n + 1);
            assert(u@ =~= listing_url(self.url_view(), (n + 1) as nat));
            out.push(u);
            n = n + 1;
        }
        out
    }

    /// Adds the chapters linked from a listing page, in page order, skipping
    /// locators already present; a malformed page changes nothing.
    pub fn find_chapters_in_page(&mut self, page: &str) -> (r: Result<(), RobinError>)
        requires
            old(self).wf(),
        ensures
            final(self).wf(),
            final(self).url_view() == old(self).url_view(),
            final(self).page_view() == old(self).page_view(),
            match r {
                Ok(()) => links_well_formed(page@) && titles_numbered(page@) && exists|
                    v: Seq<NovelFullComChapter>,
                |
                    is_page_chapters(v, page@) && final(self).chapters_view() == merged(
                        old(self).chapters_view(),
                        v,
                    ),
                Err(e) => !(links_well_formed(page@) && titles_numbered(page@)) && e is Parse
                    && final(self).chapters_view() == old(self).chapters_view(),
            },
    {
        match chapters_of_page(page) {
            Ok(found) => {
                merge_chapters(&mut self.chapters, found);
                Ok(())
            },
            Err(e) => Err(e),
        }
    }

    /// The locator of the cover art; an error where the landing page shows
    /// none.
    pub fn cover_url(&self) -> (r: Result<String, RobinError>)
        ensures
            match r {
                Ok(u) => cover_of(self.page_view()) == Some(u@),
                Err(e) => cover_of(self.page_view()) is None && e is Parse,
            },
    {
        let srcs = select_attrs(self.data.as_str(), COVER_SELECTOR, "data-cfsrc");
        assert(options_view(srcs@) == selected_attrs(self.page_view(), COVER_SELECTOR@, "data-cfsrc"@));
        if srcs.len() == 0 {
            return Err(RobinError::Parse(String::from_str(COVER_SELECTOR)));
        }
        let mut u = String::from_str(BASE_URL);
        match &srcs[0] {
            Some(src) => {
                u.append(src.as_str());
            },
            None => {
                assert(u@ =~= BASE_URL@);
            },
        }
        Ok(u)
    }

    /// The number of the last listing page; an error where the landing page
    /// has no such link or its target holds no page number.
    pub fn last_page_number(&self) -> (r: Result<u64, RobinError>)
        ensures
            match r {
                Ok(n) => last_page_of(self.page_view()) == Some(n as int),
                Err(e) => last_page_of(self.page_view()) is None && e is Parse,
            },
    {
        let hrefs = select_attrs(self.data.as_str(), LAST_PAGE_SELECTOR, "href");
        page_number_of_links(&hrefs)
    }
}

impl Serie for NovelFullCom {
    type Item = NovelFullComChapter;

    closed spec fn url_view(&self) -> Seq<char> {
        self.url@
    }

    closed spec fn page_view(&self) -> Seq<char> {
        self.data@
    }

    closed spec fn chapters_view(&self) -> Seq<NovelFullComChapter> {
        self.chapters@
    }

    /// Title, author, alternative names, genres, source and status, in
    /// that order; fields the landing page lacks are left out.
    open spec fn info_rows(&self) -> Seq<(Seq<char>, Seq<char>)> {
        novel_rows(self.page_view())
    }

    /// The site provides no metadata document.
    open spec fn details_document(&self) -> Option<Seq<char>> {
        None
    }

    fn chapter_count(&self) -> (r: usize) {
        self.chapters.len()
    }

    fn info(&self) -> (r: Vec<(String, String)>) {
        let page = self.data.as_str();
        let mut rows: Vec<(String, String)> = Vec::new();
        push_first_text(&mut rows, "title", page, TITLE_SELECTOR);
        push_joined_texts(&mut rows, "author", page, AUTHOR_SELECTOR, ", ");
        push_first_text(&mut rows, "alternative names", page, ALTERNATIVE_NAMES_SELECTOR);
        push_joined_texts(&mut rows, "genres", page, GENRES_SELECTOR, ", ");
        push_first_text(&mut rows, "source", page, SOURCE_SELECTOR);
        push_first_text(&mut rows, "status", page, STATUS_SELECTOR);
        assert(rows_view(rows@) =~= novel_rows(self.page_view()));
        rows
    }

    fn details(&self) -> (r: Option<String>) {
        None
    }

    fn filter_chapters(&mut self, filter: &str) -> (r: Result<(), RobinError>) {
        crate::chapter::filter_chapters(&mut self.chapters, filter)
    }

    fn take_chapters(&mut self) -> (r: Vec<NovelFullComChapter>) {
        let mut taken: Vec<NovelFullComChapter> = Vec::new();
        std::mem::swap(&mut self.chapters, &mut taken);
        taken
    }
}

/// The page number in the first of the targets of the links to the last
/// listing page (see `last_page_of_links`).
pub fn page_number_of_links(hrefs: &Vec<Option<String>>) -> (r: Result<u64, RobinError>)
    ensures
        match r {
            Ok(n) => last_page_of_links(options_view(hrefs@)) == Some(n as int),
            Err(e) => last_page_of_links(options_view(hrefs@)) is None && e is Parse,
        },
{
    if hrefs.len() == 0 {
        return Err(RobinError::Parse(String::from_str(LAST_PAGE_SELECTOR)));
    }
    assert(options_view(hrefs@)[0] == match hrefs@[0] {
        Some(h) => Some(h@),
        None => None::<Seq<char>>,
    });
    match &hrefs[0] {
        Some(h) => {
            let tail = text_after_last(h.as_str(), '=');
            if !has_char(h.as_str(), '=') {
                return Err(RobinError::Parse(String::from_str(LAST_PAGE_SELECTOR)));
            }
            match parse_count(tail.as_str()) {
                Some(n) => if n >= 1 {
                    Ok(n)
                } else {
                    Err(RobinError::Parse(String::from_str(LAST_PAGE_SELECTOR)))
                },
                None => Err(RobinError::Parse(String::from_str(LAST_PAGE_SELECTOR))),
            }
        },
        None => Err(RobinError::Parse(String::from_str(LAST_PAGE_SELECTOR))),
    }
}

} // verus!
