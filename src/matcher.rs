use vstd::prelude::*;

use crate::error::RobinError;
use crate::text::{has_prefix, starts_with};

verus! {

/// The sites that serve manga.
#[derive(Clone, Copy, Debug, PartialEq, Eq, Structural)]
pub enum MangaSource {
    ShijieTurkish,
}

/// The sites that serve novels.
#[derive(Clone, Copy, Debug, PartialEq, Eq, Structural)]
pub enum NovelSource {
    NovelFullCom,
}

pub const SHIJIE_TURKISH_PREFIX: &'static str = "https://shijiescans.com";

pub const NOVELFULL_COM_PREFIX: &'static str = "https://novelfull.com";

/// The source of the first entry of `table`, in order, whose prefix begins
/// `url`.
pub open spec fn first_match<K>(table: Seq<(&str, K)>, url: Seq<char>) -> Option<K>
    decreases table.len(),
{
    if table.len() == 0 {
        None
    } else if has_prefix(url, table[0].0@) {
        Some(table[0].1)
    } else {
        first_match(table.drop_first(), url)
    }
}

proof fn lemma_first_match<K>(table: Seq<(&str, K)>, url: Seq<char>, k: int)
    requires
        0 <= k <= table.len(),
        forall|j: int| 0 <= j < k ==> !has_prefix(url, #[trigger] table[j].0@),
    ensures
        first_match(table, url) == first_match(table.skip(k), url),
    decreases k,
{
    if k > 0 {
        lemma_first_match(table.drop_first(), url, k - 1);
        assert(table.drop_first().skip(k - 1) =~= table.skip(k));
    } else {
        assert(table.skip(0) =~= table);
    }
}

/// Picks the source of the first entry of `table`, in order, whose prefix
/// begins `url`.
pub fn route<K: Copy>(table: &Vec<(&'static str, K)>, url: &str) -> (r: Option<K>)
    ensures
        r == first_match(table@, url@),
{
    let mut i: usize = 0;
    while i < table.len()
        invariant
            i <= table@.len(),
            forall|j: int| 0 <= j < i ==> !has_prefix(url@, #[trigger] table@[j].0@),
        decreases table.len() - i,
    {
        let (prefix, source) = table[i];
        if starts_with(url, prefix) {
            proof {
                lemma_first_match(table@, url@, i as int);
            }
            return Some(source);
        }
        i = i + 1;
    }
    proof {
        lemma_first_match(table@, url@, i as int);
    }
    None
}

/// The manga sources, in the order they are tried.
pub open spec fn manga_table() -> Seq<(&'static str, MangaSource)> {
    seq![(SHIJIE_TURKISH_PREFIX, MangaSource::ShijieTurkish)]
}

/// The novel sources, in the order they are tried.
pub open spec fn novel_table() -> Seq<(&'static str, NovelSource)> {
    seq![(NOVELFULL_COM_PREFIX, NovelSource::NovelFullCom)]
}

/// The site that serves the manga at `url`; a locator no site serves is an
/// error.
pub fn match_manga(url: &str) -> (r: Result<MangaSource, RobinError>)
    ensures
        match r {
            Ok(s) => first_match(manga_table(), url@) == Some(s),
            Err(e) => first_match(manga_table(), url@) is None && e is UnsupportedSource,
        },
{
    let table = vec![(SHIJIE_TURKISH_PREFIX, MangaSource::ShijieTurkish)];
    assert(table@ =~= manga_table());
    match route(&table, url) {
        Some(s) => Ok(s),
        None => Err(RobinError::UnsupportedSource),
    }
}

/// The site that serves the novel at `url`; a locator no site serves is an
/// error.
pub fn match_novel(url: &str) -> (r: Result<NovelSource, RobinError>)
    ensures
        match r {
            Ok(s) => first_match(novel_table(), url@) == Some(s),
            Err(e) => first_match(novel_table(), url@) is None && e is UnsupportedSource,
        },
{
    let table = vec![(NOVELFULL_COM_PREFIX, NovelSource::NovelFullCom)];
    assert(table@ =~= novel_table());
    match route(&table, url) {
        Some(s) => Ok(s),
        None => Err(RobinError::UnsupportedSource),
    }
}

} // verus!
