use vstd::prelude::*;
use vstd::string::*;

use crate::chapter::{
    chapters_wf, merge_chapters, merged, Chapter,
};
use crate::error::RobinError;
use crate::sources::Serie;
use crate::html::{
    nested_attrs, nested_options_view, nested_texts, options_view, select_attrs,
    select_nested_attrs, select_nested_texts, select_texts, selected_attrs, selected_texts,
};
use crate::info::{
    first_text, first_text_or_empty, list_row, optional_row, or_empty, push_first_text, push_row,
    rows_view,
};
use crate::ordinal::{chapter_ordinal, ordinal_of_title};
use crate::staging::{details_json, details_text, extension_of, page_file_name, page_name};
use crate::text::{
    decimal_text, join, push_char, replace_char, replaced, texts_view, to_decimal,
};

verus! {

pub const CHAPTER_LIST_SELECTOR: &'static str = "#chapterlist > ul > li";

pub const CHAPTER_NAME_SELECTOR: &'static str =
    "div:nth-child(1) > div:nth-child(1) > a:nth-child(1) > span:nth-child(1)";

pub const CHAPTER_DATE_SELECTOR: &'static str =
    "div:nth-child(1) > div:nth-child(1) > a:nth-child(1) > span:nth-child(2)";

pub const CHAPTER_URL_SELECTOR: &'static str = "div:nth-child(1) > div:nth-child(1) > a:nth-child(1)";

pub const COVER_SELECTOR: &'static str = ".attachment-";

pub const TITLE_SELECTOR: &'static str = "h1.entry-title";

pub const AUTHOR_SELECTOR: &'static str =
    "div.flex-wrap:nth-child(4) > div:nth-child(2) > span:nth-child(2)";

pub const DESCRIPTION_SELECTOR: &'static str = ".entry-content > p";

pub const GENRES_SELECTOR: &'static str = ".mgen > a";

pub const FIRST_CHAPTER_SELECTOR: &'static str = ".epcurfirst";

pub const LAST_CHAPTER_SELECTOR: &'static str = ".epcurlast";

pub const STATUS_SELECTOR: &'static str = "div.imptdt:nth-child(1) > i:nth-child(1)";

pub const IMAGES_SCRIPT_SELECTOR: &'static str = ".wrapper > script:nth-child(2)";

/// The length of the call that opens the image script, `ts_reader.run(`.
pub const SCRIPT_PREFIX_LEN: usize = 14;

/// The length of what closes the image script, `);`.
pub const SCRIPT_SUFFIX_LEN: usize = 2;

/// One chapter of a manga: its name, release date, locator and, once
/// fetched, its page locators and pages.
pub struct ShijieTurkishChapter {
    date: String,
    name: String,
    url: String,
    page_urls: Vec<String>,
    page_data: Vec<(String, Vec<u8>)>,
    number: i64,
}

impl Chapter for ShijieTurkishChapter {
    closed spec fn ordinal(&self) -> int {
        self.number as int
    }

    closed spec fn locator(&self) -> Seq<char> {
        self.url@
    }

    open spec fn wf(&self) -> bool {
        ordinal_of_title(self.name_view()) == Some(self.ordinal())
    }

    fn chapter_num(&self) -> (r: i64) {
        self.number
    }

    fn url(&self) -> (r: &String) {
        &self.url
    }
}

/// The views of a chapter's pages: file name and bytes.
pub open spec fn pages_view(p: Seq<(String, Vec<u8>)>) -> Seq<(Seq<char>, Seq<u8>)> {
    p.map_values(|e: (String, Vec<u8>)| (e.0@, e.1@))
}

/// The JSON list of images inside the script of a chapter page: the
/// script's text without its opening call and its closing.
pub open spec fn script_json(page: Seq<char>) -> Option<Seq<char>> {
    json_of_scripts(selected_texts(page, IMAGES_SCRIPT_SELECTOR@))
}

/// The JSON list of images inside the first of the image scripts.
pub open spec fn json_of_scripts(scripts: Seq<Seq<char>>) -> Option<Seq<char>> {
    if scripts.len() > 0 && scripts[0].len() >= SCRIPT_PREFIX_LEN + SCRIPT_SUFFIX_LEN {
        Some(scripts[0].subrange(SCRIPT_PREFIX_LEN as int, scripts[0].len() - SCRIPT_SUFFIX_LEN))
    } else {
        None
    }
}

/// The rows describing a chapter.
pub open spec fn chapter_rows(
    name: Seq<char>,
    date: Seq<char>,
    url: Seq<char>,
    page_count: nat,
) -> Seq<(Seq<char>, Seq<char>)> {
    seq![
        ("name"@, name),
        ("release date"@, date),
        ("source"@, url),
        ("page count"@, decimal_text(page_count)),
    ]
}

impl ShijieTurkishChapter {
    pub closed spec fn name_view(&self) -> Seq<char> {
        self.name@
    }

    pub closed spec fn date_view(&self) -> Seq<char> {
        self.date@
    }

    pub closed spec fn page_urls_view(&self) -> Seq<Seq<char>> {
        texts_view(self.page_urls@)
    }

    pub closed spec fn pages(&self) -> Seq<(Seq<char>, Seq<u8>)> {
        pages_view(self.page_data@)
    }

    /// A chapter with no pages yet; a name without a number is an error.
    pub fn new(name: String, date: String, url: String) -> (r: Result<
        ShijieTurkishChapter,
        RobinError,
    >)
        ensures
            match r {
                Ok(c) => {
                    &&& c.name_view() == name@
                    &&& c.date_view() == date@
                    &&& c.locator() == url@
                    &&& c.page_urls_view().len() == 0
                    &&& c.pages().len() == 0
                    &&& c.wf()
                },
                Err(e) => ordinal_of_title(name@) is None && e is Parse,
            },
    {
        match chapter_ordinal(name.as_str()) {
            Ok(number) => {
                let c = ShijieTurkishChapter {
                    date,
                    name,
                    url,
                    page_urls: Vec::new(),
                    page_data: Vec::new(),
                    number,
                };
                assert(c.page_urls_view() =~= Seq::empty());
                assert(c.pages() =~= Seq::empty());
                Ok(c)
            },
            Err(e) => Err(e),
        }
    }

    pub fn name(&self) -> (r: &String)
        ensures
            r@ == self.name_view(),
    {
        &self.name
    }

    pub fn date(&self) -> (r: &String)
        ensures
            r@ == self.date_view(),
    {
        &self.date
    }

    /// The JSON list of images on a chapter page; an error where the page
    /// holds no such script.
    pub fn images_json(page: &str) -> (r: Result<String, RobinError>)
        ensures
            match r {
                Ok(j) => script_json(page@) == Some(j@),
                Err(e) => script_json(page@) is None && e is Parse,
            },
    {
        let scripts = select_texts(page, IMAGES_SCRIPT_SELECTOR);
        Self::json_of_scripts(&scripts)
    }

    /// The JSON list of images inside the first of the image scripts of a
    /// chapter page (see `json_of_scripts`).
    pub fn json_of_scripts(scripts: &Vec<String>) -> (r: Result<String, RobinError>)
        ensures
            match r {
                Ok(j) => json_of_scripts(texts_view(scripts@)) == Some(j@),
                Err(e) => json_of_scripts(texts_view(scripts@)) is None && e is Parse,
            },
    {
        if scripts.len() == 0 {
            return Err(RobinError::Parse(String::from_str(IMAGES_SCRIPT_SELECTOR)));
        }
        let script = scripts[0].as_str();
        assert(script@ == texts_view(scripts@)[0]);
        let n = script.unicode_len();
        if n < SCRIPT_PREFIX_LEN + SCRIPT_SUFFIX_LEN {
            return Err(RobinError::Parse(String::from_str(IMAGES_SCRIPT_SELECTOR)));
        }
        Ok(String::from_str(script.substring_char(SCRIPT_PREFIX_LEN, n - SCRIPT_SUFFIX_LEN)))
    }

    /// Sets the locators of the chapter's pages, in order.
    pub fn set_page_urls(&mut self, urls: Vec<String>)
        ensures
            final(self).page_urls_view() == texts_view(urls@),
            final(self).pages() == old(self).pages(),
            final(self).name_view() == old(self).name_view(),
            final(self).date_view() == old(self).date_view(),
            final(self).locator() == old(self).locator(),
            final(self).ordinal() == old(self).ordinal(),
    {
        self.page_urls = urls;
    }

    pub fn page_count(&self) -> (r: usize)
        ensures
            r == self.page_urls_view().len(),
    {
        self.page_urls.len()
    }

    pub fn page_urls(&self) -> (r: &Vec<String>)
        ensures
            texts_view(r@) == self.page_urls_view(),
    {
        &self.page_urls
    }

    pub fn page_data(&self) -> (r: &Vec<(String, Vec<u8>)>)
        ensures
            pages_view(r@) == self.pages(),
    {
        &self.page_data
    }

    /// Keeps the next page, named by its position and the extension of
    /// `final_url`, the locator its response came from.
    pub fn add_page(&mut self, final_url: &str, bytes: Vec<u8>)
        ensures
            final(self).pages() == old(self).pages().push(
                (page_name(old(self).pages().len(), extension_of(final_url@)), bytes@),
            ),
            final(self).page_urls_view() == old(self).page_urls_view(),
            final(self).name_view() == old(self).name_view(),
            final(self).date_view() == old(self).date_view(),
            final(self).locator() == old(self).locator(),
            final(self).ordinal() == old(self).ordinal(),
    {
        let name = page_file_name(self.page_data.len() as u64, final_url);
        let ghost b = bytes@;
        self.page_data.push((name, bytes));
        assert(self.pages() =~= old(self).pages().push(
            (page_name(old(self).pages().len(), extension_of(final_url@)), b),
        ));
    }

    /// Drops the pages once they are written.
    pub fn clear_pages(&mut self)
        ensures
            final(self).pages().len() == 0,
            final(self).page_urls_view() == old(self).page_urls_view(),
            final(self).name_view() == old(self).name_view(),
            final(self).date_view() == old(self).date_view(),
            final(self).locator() == old(self).locator(),
            final(self).ordinal() == old(self).ordinal(),
    {
        self.page_data = Vec::new();
        assert(self.pages() =~= Seq::empty());
    }

    /// The chapter's name, release date, locator and page count.
    pub fn info(&self) -> (r: Vec<(String, String)>)
        ensures
            rows_view(r@) == chapter_rows(
                self.name_view(),
                self.date_view(),
                self.locator(),
                self.page_urls_view().len(),
            ),
    {
        let mut rows: Vec<(String, String)> = Vec::new();
        push_row(&mut rows, "name", self.name.clone());
        push_row(&mut rows, "release date", self.date.clone());
        push_row(&mut rows, "source", self.url.clone());
        push_row(&mut rows, "page count", to_decimal(self.page_urls.len() as u64));
        assert(rows_view(rows@) =~= chapter_rows(
            self.name_view(),
            self.date_view(),
            self.locator(),
            self.page_urls_view().len(),
        ));
        rows
    }
}


/// Whether every entry of the chapter list on a landing page has a name,
/// a release date and a link with a target.
pub open spec fn listing_well_formed(page: Seq<char>) -> bool {
    entries_ok(
        nested_texts(page, CHAPTER_LIST_SELECTOR@, CHAPTER_NAME_SELECTOR@),
        nested_texts(page, CHAPTER_LIST_SELECTOR@, CHAPTER_DATE_SELECTOR@),
        nested_attrs(page, CHAPTER_LIST_SELECTOR@, CHAPTER_URL_SELECTOR@, "href"@),
    )
}

/// Whether every chapter name on a landing page gives an ordinal.
pub open spec fn names_numbered(page: Seq<char>) -> bool {
    names_ok(nested_texts(page, CHAPTER_LIST_SELECTOR@, CHAPTER_NAME_SELECTOR@))
}

/// `v` holds the chapters listed on a landing page, in page order, with
/// no pages yet.
pub open spec fn is_listed_chapters(v: Seq<ShijieTurkishChapter>, page: Seq<char>) -> bool {
    is_entry_chapters(
        v,
        nested_texts(page, CHAPTER_LIST_SELECTOR@, CHAPTER_NAME_SELECTOR@),
        nested_texts(page, CHAPTER_LIST_SELECTOR@, CHAPTER_DATE_SELECTOR@),
        nested_attrs(page, CHAPTER_LIST_SELECTOR@, CHAPTER_URL_SELECTOR@, "href"@),
    )
}

/// Whether every entry has a name, a release date and a link with a
/// target.
pub open spec fn entries_ok(
    names: Seq<Option<Seq<char>>>,
    dates: Seq<Option<Seq<char>>>,
    urls: Seq<Option<Option<Seq<char>>>>,
) -> bool {
    &&& names.len() == dates.len()
    &&& names.len() == urls.len()
    &&& forall|i: int|
        0 <= i < names.len() ==> {
            &&& #[trigger] names[i] is Some
            &&& dates[i] is Some
            &&& urls[i] matches Some(Some(_))
        }
}

/// Whether every name present gives an ordinal.
pub open spec fn names_ok(names: Seq<Option<Seq<char>>>) -> bool {
    forall|i: int|
        0 <= i < names.len() && names[i] is Some ==> ordinal_of_title(#[trigger] names[i]->0) is Some
}

/// `v` holds a chapter for each entry, in order, with no pages yet.
pub open spec fn is_entry_chapters(
    v: Seq<ShijieTurkishChapter>,
    names: Seq<Option<Seq<char>>>,
    dates: Seq<Option<Seq<char>>>,
    urls: Seq<Option<Option<Seq<char>>>>,
) -> bool {
    &&& v.len() == names.len()
    &&& forall|i: int|
        0 <= i < v.len() ==> {
            &&& (#[trigger] v[i]).name_view() == names[i]->0
            &&& v[i].date_view() == dates[i]->0
            &&& v[i].locator() == urls[i]->0->0
            &&& v[i].page_urls_view().len() == 0
            &&& v[i].pages().len() == 0
            &&& v[i].wf()
        }
}

/// The chapters listed on a landing page, in page order; an error where an
/// entry lacks a part or a name gives no ordinal.
pub fn listed_chapters(page: &str) -> (r: Result<Vec<ShijieTurkishChapter>, RobinError>)
    ensures
        match r {
            Ok(v) => listing_well_formed(page@) && names_numbered(page@) && is_listed_chapters(
                v@,
                page@,
            ),
            Err(e) => !(listing_well_formed(page@) && names_numbered(page@)) && e is Parse,
        },
{
    let names = select_nested_texts(page, CHAPTER_LIST_SELECTOR, CHAPTER_NAME_SELECTOR);
    let dates = select_nested_texts(page, CHAPTER_LIST_SELECTOR, CHAPTER_DATE_SELECTOR);
    let urls = select_nested_attrs(page, CHAPTER_LIST_SELECTOR, CHAPTER_URL_SELECTOR, "href");
    chapters_of_entries(names, dates, urls)
}

/// A chapter for each entry of a chapter list, from its name, release date
/// and link target, in order; an error where an entry lacks a part, the
/// counts differ, or a name gives no ordinal.
pub fn chapters_of_entries(
    names: Vec<Option<String>>,
    dates: Vec<Option<String>>,
    urls: Vec<Option<Option<String>>>,
) -> (r: Result<Vec<ShijieTurkishChapter>, RobinError>)
    ensures
        match r {
            Ok(v) => entries_ok(options_view(names@), options_view(dates@), nested_options_view(urls@))
                && names_ok(options_view(names@)) && is_entry_chapters(
                v@,
                options_view(names@),
                options_view(dates@),
                nested_options_view(urls@),
            ),
            Err(e) => !(entries_ok(
                options_view(names@),
                options_view(dates@),
                nested_options_view(urls@),
            ) && names_ok(options_view(names@))) && e is Parse,
        },
{
    let ghost nv = options_view(names@);
    let ghost dv = options_view(dates@);
    let ghost uv = nested_options_view(urls@);
    if names.len() != dates.len() || names.len() != urls.len() {
        return Err(RobinError::Parse(String::from_str(CHAPTER_LIST_SELECTOR)));
    }
    let mut out: Vec<ShijieTurkishChapter> = Vec::new();
    let mut i: usize = 0;
    while i < names.len()
        invariant
            i <= names@.len(),
            names@.len() == dates@.len() == urls@.len(),
            options_view(names@) == nv,
            options_view(dates@) == dv,
            nested_options_view(urls@) == uv,
            out@.len() == i,
            forall|j: int|
                0 <= j < i ==> {
                    &&& #[trigger] nv[j] is Some
                    &&& dv[j] is Some
                    &&& uv[j] matches Some(Some(_))
                    &&& ordinal_of_title(nv[j]->0) is Some
                },
            forall|j: int|
                0 <= j < i ==> {
                    &&& (#[trigger] out@[j]).name_view() == nv[j]->0
                    &&& out@[j].date_view() == dv[j]->0
                    &&& out@[j].locator() == uv[j]->0->0
                    &&& out@[j].page_urls_view().len() == 0
                    &&& out@[j].pages().len() == 0
                    &&& out@[j].wf()
                },
        decreases names.len() - i,
    {
        let name = match &names[i] {
            Some(n) => n.clone(),
            None => {
                assert(!(nv[i as int] is Some));
                return Err(RobinError::Parse(String::from_str(CHAPTER_NAME_SELECTOR)));
            },
        };
        let date = match &dates[i] {
            Some(d) => d.clone(),
            None => {
                assert(!(dv[i as int] is Some));
                assert(nv[i as int] is Some);
                return Err(RobinError::Parse(String::from_str(CHAPTER_DATE_SELECTOR)));
            },
        };
        let url = match &urls[i] {
            Some(Some(u)) => u.clone(),
            _ => {
                assert(!(uv[i as int] matches Some(Some(_))));
                assert(nv[i as int] is Some);
                return Err(RobinError::Parse(String::from_str(CHAPTER_URL_SELECTOR)));
            },
        };
        match ShijieTurkishChapter::new(name, date, url) {
            Ok(c) => {
                out.push(c);
            },
            Err(e) => {
                assert(ordinal_of_title(nv[i as int]->0) is None);
                assert(!names_ok(nv));
                return Err(e);
            },
        }
        i = i + 1;
    }
    Ok(out)
}

/// A chapter entry with its name in quotes.
pub open spec fn quoted(s: Seq<char>) -> Seq<char> {
    seq!['"'] + s + seq!['"']
}

/// The description on a landing page, on one line.
pub open spec fn description_of(page: Seq<char>) -> Option<Seq<char>> {
    match first_text(page, DESCRIPTION_SELECTOR@) {
        Some(d) => Some(replaced(d, '\n', ' ')),
        None => None,
    }
}

/// The rows describing a manga, from its landing page and its number of
/// chapters; fields the page lacks are left out.
pub open spec fn manga_rows(page: Seq<char>, chapter_count: nat) -> Seq<(Seq<char>, Seq<char>)> {
    optional_row("title"@, first_text(page, TITLE_SELECTOR@)) + optional_row(
        "author"@,
        first_text(page, AUTHOR_SELECTOR@),
    ) + optional_row("artist"@, first_text(page, AUTHOR_SELECTOR@)) + optional_row(
        "description"@,
        description_of(page),
    ) + list_row(
        "genres"@,
        selected_texts(page, GENRES_SELECTOR@).map_values(|g: Seq<char>| quoted(g)),
        ", "@,
    ) + optional_row("first chapter"@, first_text(page, FIRST_CHAPTER_SELECTOR@)) + optional_row(
        "last chapter"@,
        first_text(page, LAST_CHAPTER_SELECTOR@),
    ) + seq![("chapter count"@, decimal_text(chapter_count))] + optional_row(
        "status"@,
        first_text(page, STATUS_SELECTOR@),
    )
}

/// The metadata document of a manga, from its landing page; absent fields
/// are empty.
pub open spec fn manga_details(page: Seq<char>) -> Seq<char> {
    details_text(
        or_empty(first_text(page, TITLE_SELECTOR@)),
        or_empty(first_text(page, AUTHOR_SELECTOR@)),
        or_empty(first_text(page, AUTHOR_SELECTOR@)),
        or_empty(description_of(page)),
        selected_texts(page, GENRES_SELECTOR@),
        or_empty(first_text(page, STATUS_SELECTOR@)),
    )
}

/// The locator of the cover art on a landing page.
pub open spec fn cover_of(page: Seq<char>) -> Option<Seq<char>> {
    let srcs = selected_attrs(page, COVER_SELECTOR@, "src"@);
    if srcs.len() > 0 {
        srcs[0]
    } else {
        None
    }
}

/// A manga of shijiescans.com: its locator, its landing page and the
/// chapters discovered so far.
pub struct ShijieTurkish {
    url: String,
    data: String,
    chapters: Vec<ShijieTurkishChapter>,
}

impl ShijieTurkish {
    /// No two chapters share a locator, and each ordinal is its name's.
    pub open spec fn wf(&self) -> bool {
        chapters_wf(self.chapters_view())
    }

    /// The manga at `url`, whose landing page is `page`, with no chapters
    /// discovered yet.
    pub fn new(url: String, page: String) -> (r: ShijieTurkish)
        ensures
            r.url_view() == url@,
            r.page_view() == page@,
            r.chapters_view().len() == 0,
            r.wf(),
    {
        ShijieTurkish { url, data: page, chapters: Vec::new() }
    }

    pub fn url(&self) -> (r: &String)
        ensures
            r@ == self.url_view(),
    {
        &self.url
    }

    pub fn chapters(&self) -> (r: &Vec<ShijieTurkishChapter>)
        ensures
            r@ == self.chapters_view(),
    {
        &self.chapters
    }

    /// Adds the chapters listed on the landing page, in page order,
    /// skipping locators already present; a malformed list changes nothing.
    pub fn find_chapters(&mut self) -> (r: Result<(), RobinError>)
        requires
            old(self).wf(),
        ensures
            final(self).wf(),
            final(self).url_view() == old(self).url_view(),
            final(self).page_view() == old(self).page_view(),
            match r {
                Ok(()) => listing_well_formed(old(self).page_view()) && names_numbered(
                    old(self).page_view(),
                ) && exists|v: Seq<ShijieTurkishChapter>|
                    is_listed_chapters(v, old(self).page_view()) && final(self).chapters_view()
                        == merged(old(self).chapters_view(), v),
                Err(e) => !(listing_well_formed(old(self).page_view()) && names_numbered(
                    old(self).page_view(),
                )) && e is Parse && final(self).chapters_view() == old(self).chapters_view(),
            },
    {
        match listed_chapters(self.data.as_str()) {
            Ok(found) => {
                merge_chapters(&mut self.chapters, found);
                Ok(())
            },
            Err(e) => Err(e),
        }
    }

    /// The locator of the cover art; an error where the landing page shows
    /// none.
    pub fn cover_url(&self) -> (r: Result<String, RobinError>)
        ensures
            match r {
                Ok(u) => cover_of(self.page_view()) == Some(u@),
                Err(e) => cover_of(self.page_view()) is None && e is Parse,
            },
    {
        let srcs = select_attrs(self.data.as_str(), COVER_SELECTOR, "src");
        assert(options_view(srcs@) == selected_attrs(self.page_view(), COVER_SELECTOR@, "src"@));
        if srcs.len() == 0 {
            return Err(RobinError::Parse(String::from_str(COVER_SELECTOR)));
        }
        match &srcs[0] {
            Some(src) => Ok(src.clone()),
            None => Err(RobinError::Parse(String::from_str(COVER_SELECTOR))),
        }
    }
}

impl Serie for ShijieTurkish {
    type Item = ShijieTurkishChapter;

    closed spec fn url_view(&self) -> Seq<char> {
        self.url@
    }

    closed spec fn page_view(&self) -> Seq<char> {
        self.data@
    }

    closed spec fn chapters_view(&self) -> Seq<ShijieTurkishChapter> {
        self.chapters@
    }

    /// Title, author, artist, description, genres, first and last chapter,
    /// chapter count and status, in that order; fields the landing page
    /// lacks are left out.
    open spec fn info_rows(&self) -> Seq<(Seq<char>, Seq<char>)> {
        manga_rows(self.page_view(), self.chapters_view().len())
    }

    /// The metadata document of the manga (see `details_json`).
    open spec fn details_document(&self) -> Option<Seq<char>> {
        Some(manga_details(self.page_view()))
    }

    fn chapter_count(&self) -> (r: usize) {
        self.chapters.len()
    }

    fn info(&self) -> (r: Vec<(String, String)>) {
        let page = self.data.as_str();
        let mut rows: Vec<(String, String)> = Vec::new();
        push_first_text(&mut rows, "title", page, TITLE_SELECTOR);
        push_first_text(&mut rows, "author", page, AUTHOR_SELECTOR);
        push_first_text(&mut rows, "artist", page, AUTHOR_SELECTOR);
        let descriptions = select_texts(page, DESCRIPTION_SELECTOR);
        let ghost before = rows@;
        if descriptions.len() > 0 {
            assert(descriptions@[0]@ == texts_view(descriptions@)[0]);
            let d = replace_char(descriptions[0].as_str(), '\n', ' ');
            push_row(&mut rows, "description", d);
        } else {
            assert(rows_view(rows@) =~= rows_view(before) + Seq::empty());
        }
        let genres = select_texts(page, GENRES_SELECTOR);
        let ghost gv = selected_texts(self.page_view(), GENRES_SELECTOR@);
        let ghost before = rows@;
        if genres.len() > 0 {
            let mut quoted_genres: Vec<String> = Vec::new();
            let mut i: usize = 0;
            while i < genres.len()
                invariant
                    i <= genres@.len(),
                    texts_view(genres@) == gv,
                    quoted_genres@.len() == i,
                    forall|j: int| 0 <= j < i ==> (#[trigger] quoted_genres@[j])@ == quoted(gv[j]),
                decreases genres.len() - i,
            {
                let mut q = String::new();
                push_char(&mut q, '"');
                q.append(genres[i].as_str());
                push_char(&mut q, '"');
                assert(gv[i as int] == genres@[i as int]@);
                assert(q@ =~= quoted(gv[i as int]));
                quoted_genres.push(q);
                i = i + 1;
            }
            assert(texts_view(quoted_genres@) =~= gv.map_values(|g: Seq<char>| quoted(g)));
            push_row(&mut rows, "genres", join(&quoted_genres, ", "));
        } else {
            assert(rows_view(rows@) =~= rows_view(before) + Seq::empty());
        }
        push_first_text(&mut rows, "first chapter", page, FIRST_CHAPTER_SELECTOR);
        push_first_text(&mut rows, "last chapter", page, LAST_CHAPTER_SELECTOR);
        push_row(&mut rows, "chapter count", to_decimal(self.chapters.len() as u64));
        push_first_text(&mut rows, "status", page, STATUS_SELECTOR);
        assert(rows_view(rows@) =~= manga_rows(self.page_view(), self.chapters_view().len()));
        rows
    }

    fn details(&self) -> (r: Option<String>) {
        let page = self.data.as_str();
        let title = first_text_or_empty(page, TITLE_SELECTOR);
        let author = first_text_or_empty(page, AUTHOR_SELECTOR);
        let description = replace_char(
            first_text_or_empty(page, DESCRIPTION_SELECTOR).as_str(),
            '\n',
            ' ',
        );
        proof {
            assert(description@ == or_empty(description_of(self.page_view()))) by {
                if first_text(self.page_view(), DESCRIPTION_SELECTOR@) is None {
                    assert(description@ =~= Seq::<char>::empty());
                }
            }
        }
        let genres = select_texts(page, GENRES_SELECTOR);
        let status = first_text_or_empty(page, STATUS_SELECTOR);
        Some(details_json(
            title.as_str(),
            author.as_str(),
            author.as_str(),
            description.as_str(),
            &genres,
            status.as_str(),
        ))
    }

    fn filter_chapters(&mut self, filter: &str) -> (r: Result<(), RobinError>) {
        crate::chapter::filter_chapters(&mut self.chapters, filter)
    }

    fn take_chapters(&mut self) -> (r: Vec<ShijieTurkishChapter>) {
        let mut taken: Vec<ShijieTurkishChapter> = Vec::new();
        std::mem::swap(&mut self.chapters, &mut taken);
        taken
    }
}

} // verus!
