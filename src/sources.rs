//! One adapter per supported site, each a `Serie`.

use vstd::prelude::*;

use crate::chapter::{chapters_wf, in_range, range_bounds, Chapter};
use crate::error::RobinError;
use crate::info::rows_view;

pub mod novelfullcom_english;
pub mod shijie_turkish;

verus! {

/// What every site adapter offers once its landing page is fetched: the
/// chapters discovered so far, the rows describing the series, its
/// metadata document if the site provides one, and chapter filtering.
pub trait Serie {
    type Item: Chapter;

    spec fn url_view(&self) -> Seq<char>;

    /// The landing page.
    spec fn page_view(&self) -> Seq<char>;

    spec fn chapters_view(&self) -> Seq<Self::Item>;

    /// The rows describing the series.
    spec fn info_rows(&self) -> Seq<(Seq<char>, Seq<char>)>;

    /// The metadata document, where the site provides one.
    spec fn details_document(&self) -> Option<Seq<char>>;

    fn chapter_count(&self) -> (r: usize)
        ensures
            r == self.chapters_view().len(),
    ;

    fn info(&self) -> (r: Vec<(String, String)>)
        ensures
            rows_view(r@) == self.info_rows(),
    ;

    fn details(&self) -> (r: Option<String>)
        ensures
            match r {
                Some(d) => self.details_document() == Some(d@),
                None => self.details_document() is None,
            },
    ;

    /// Keeps the chapters within the range written in `filter` (see
    /// `parse_chapter_filter`); the empty text keeps all of them.
    fn filter_chapters(&mut self, filter: &str) -> (r: Result<(), RobinError>)
        requires
            chapters_wf(old(self).chapters_view()),
        ensures
            chapters_wf(final(self).chapters_view()),
            final(self).url_view() == old(self).url_view(),
            final(self).page_view() == old(self).page_view(),
            match r {
                Ok(()) => if filter@.len() == 0 {
                    final(self).chapters_view() == old(self).chapters_view()
                } else {
                    match range_bounds(filter@) {
                        Some((lb, ub)) => final(self).chapters_view() == old(
                            self,
                        ).chapters_view().filter(in_range::<Self::Item>(lb, ub)),
                        None => false,
                    }
                },
                Err(e) => filter@.len() > 0 && range_bounds(filter@) is None && e is Parse
                    && final(self).chapters_view() == old(self).chapters_view(),
            },
    ;

    /// Hands the discovered chapters over for downloading, leaving none.
    fn take_chapters(&mut self) -> (r: Vec<Self::Item>)
        ensures
            r@ == old(self).chapters_view(),
            final(self).chapters_view().len() == 0,
            final(self).url_view() == old(self).url_view(),
            final(self).page_view() == old(self).page_view(),
    ;
}

} // verus!
