use vstd::prelude::*;

use crate::text::texts_view;

verus! {

/// The text of each element of the HTML document `page` that the CSS
/// selector `selector` matches, in the order the parser built them.
pub uninterp spec fn selected_texts(page: Seq<char>, selector: Seq<char>) -> Seq<Seq<char>>;

/// The attribute `attr` of each element of `page` that `selector` matches,
/// in the order the parser built them.
pub uninterp spec fn selected_attrs(page: Seq<char>, selector: Seq<char>, attr: Seq<char>) -> Seq<
    Option<Seq<char>>,
>;

/// For each element of `page` that `outer` matches, in the order the parser
/// built them, the text of the first element within it that `inner` matches.
pub uninterp spec fn nested_texts(page: Seq<char>, outer: Seq<char>, inner: Seq<char>) -> Seq<
    Option<Seq<char>>,
>;

/// For each element of `page` that `outer` matches, in the order the parser
/// built them, the attribute `attr` of the first element within it that
/// `inner` matches.
pub uninterp spec fn nested_attrs(
    page: Seq<char>,
    outer: Seq<char>,
    inner: Seq<char>,
    attr: Seq<char>,
) -> Seq<Option<Option<Seq<char>>>>;

/// The views of a sequence of optional strings.
pub open spec fn options_view(v: Seq<Option<String>>) -> Seq<Option<Seq<char>>> {
    v.map_values(|o: Option<String>| match o {
        Some(s) => Some(s@),
        None => None,
    })
}

/// The views of a sequence of optional optional strings.
pub open spec fn nested_options_view(v: Seq<Option<Option<String>>>) -> Seq<
    Option<Option<Seq<char>>>,
> {
    v.map_values(|o: Option<Option<String>>| match o {
        Some(Some(s)) => Some(Some(s@)),
        Some(None) => Some(None),
        None => None,
    })
}

/// Relies on scraper's `Html::parse_document`, `Selector::parse`,
/// `Html::select` and `ElementRef::text`: the text of each matching element
/// in the order the parser built them, which depends on the two strings
/// alone; a selector that does not parse matches nothing.
#[verifier::external_body]
pub(crate) fn select_texts(page: &str, selector: &str) -> (r: Vec<String>)
    ensures
        texts_view(r@) == selected_texts(page@, selector@),
{
    match scraper::Selector::parse(selector) {
        Ok(sel) => scraper::Html::parse_document(page).select(&sel).map(
            |e| e.text().collect::<String>(),
        ).collect(),
        Err(_) => Vec::new(),
    }
}

/// Relies on scraper's `Html::parse_document`, `Selector::parse`,
/// `Html::select` and `ElementRef::attr`: the attribute of each matching
/// element in the order the parser built them, which depends on the strings
/// alone; a selector that does not parse matches nothing.
#[verifier::external_body]
pub(crate) fn select_attrs(page: &str, selector: &str, attr: &str) -> (r: Vec<Option<String>>)
    ensures
        options_view(r@) == selected_attrs(page@, selector@, attr@),
{
    match scraper::Selector::parse(selector) {
        Ok(sel) => scraper::Html::parse_document(page).select(&sel).map(
            |e| e.attr(attr).map(|a| a.to_string()),
        ).collect(),
        Err(_) => Vec::new(),
    }
}

/// Relies on scraper's `Html::parse_document`, `Selector::parse`,
/// `Html::select`, `ElementRef::select` and `ElementRef::text`: for each
/// element that `outer` matches, the text of its first descendant that
/// `inner` matches; this depends on the strings alone, and selectors that
/// do not parse match nothing.
#[verifier::external_body]
pub(crate) fn select_nested_texts(page: &str, outer: &str, inner: &str) -> (r: Vec<Option<String>>)
    ensures
        options_view(r@) == nested_texts(page@, outer@, inner@),
{
    match (scraper::Selector::parse(outer), scraper::Selector::parse(inner)) {
        (Ok(o), Ok(i)) => scraper::Html::parse_document(page).select(&o).map(
            |e| e.select(&i).next().map(|x| x.text().collect::<String>()),
        ).collect(),
        _ => Vec::new(),
    }
}

/// Relies on scraper's `Html::parse_document`, `Selector::parse`,
/// `Html::select`, `ElementRef::select` and `ElementRef::attr`: for each
/// element that `outer` matches, the attribute of its first descendant that
/// `inner` matches, if there is one; this depends on the strings alone, and
/// selectors that do not parse match nothing.
#[verifier::external_body]
pub(crate) fn select_nested_attrs(page: &str, outer: &str, inner: &str, attr: &str) -> (r: Vec<
    Option<Option<String>>,
>)
    ensures
        nested_options_view(r@) == nested_attrs(page@, outer@, inner@, attr@),
{
    match (scraper::Selector::parse(outer), scraper::Selector::parse(inner)) {
        (Ok(o), Ok(i)) => scraper::Html::parse_document(page).select(&o).map(
            |e| e.select(&i).next().map(|x| x.attr(attr).map(|a| a.to_string())),
        ).collect(),
        _ => Vec::new(),
    }
}

} // verus!
