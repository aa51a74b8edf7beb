use vstd::prelude::*;
use vstd::string::*;

use crate::html::{select_texts, selected_texts};
use crate::text::{capitalize, capitalized, join, joined, push_char, texts_view};

verus! {

/// One row of a rendered mapping: `Capitalized-key: value` and a newline.
pub open spec fn info_line(key: Seq<char>, value: Seq<char>) -> Seq<char> {
    capitalized(key) + seq![':', ' '] + value + seq!['\n']
}

/// A mapping of field names to text, rendered one row per line in order.
pub open spec fn info_text(rows: Seq<(String, String)>) -> Seq<char>
    decreases rows.len(),
{
    if rows.len() == 0 {
        Seq::empty()
    } else {
        info_text(rows.drop_last()) + info_line(rows.last().0@, rows.last().1@)
    }
}

/// The index of the first row whose key is `key`, or `rows.len()`.
pub open spec fn key_index(rows: Seq<(String, String)>, key: Seq<char>) -> int
    decreases rows.len(),
{
    if rows.len() == 0 {
        0
    } else if rows[0].0@ == key {
        0
    } else {
        1 + key_index(rows.drop_first(), key)
    }
}

proof fn lemma_key_index(rows: Seq<(String, String)>, key: Seq<char>, k: int)
    requires
        0 <= k <= rows.len(),
        forall|j: int| 0 <= j < k ==> rows[j].0@ != key,
        k == rows.len() || rows[k].0@ == key,
    ensures
        key_index(rows, key) == k,
    decreases k,
{
    if k > 0 {
        lemma_key_index(rows.drop_first(), key, k - 1);
    }
}

/// Renders a mapping as `Capitalized-key: value` lines, one per row, in
/// order.
pub fn format_info(info: &Vec<(String, String)>) -> (r: String)
    ensures
        r@ == info_text(info@),
{
    let mut buff = String::new();
    let mut i: usize = 0;
    while i < info.len()
        invariant
            i <= info@.len(),
            buff@ == info_text(info@.take(i as int)),
        decreases info.len() - i,
    {
        let key = capitalize(info[i].0.as_str());
        buff.append(key.as_str());
        push_char(&mut buff, ':');
        push_char(&mut buff, ' ');
        buff.append(info[i].1.as_str());
        push_char(&mut buff, '\n');
        proof {
            assert(info@.take(i + 1).drop_last() =~= info@.take(i as int));
            assert(buff@ =~= info_text(info@.take(i as int)) + info_line(
                info@[i as int].0@,
                info@[i as int].1@,
            ));
        }
        i = i + 1;
    }
    assert(info@.take(i as int) =~= info@);
    buff
}

/// The value of the first row whose key is `target`.
pub fn find_in_info(info: &Vec<(String, String)>, target: &str) -> (r: Option<String>)
    ensures
        match r {
            Some(v) => key_index(info@, target@) < info@.len() && v@ == info@[key_index(
                info@,
                target@,
            )].1@,
            None => key_index(info@, target@) == info@.len(),
        },
{
    let wanted = String::from_str(target);
    let mut i: usize = 0;
    while i < info.len()
        invariant
            i <= info@.len(),
            wanted@ == target@,
            forall|j: int| 0 <= j < i ==> info@[j].0@ != target@,
        decreases info.len() - i,
    {
        if info[i].0 == wanted {
            proof {
                lemma_key_index(info@, target@, i as int);
            }
            return Some(info[i].1.clone());
        }
        i = i + 1;
    }
    proof {
        lemma_key_index(info@, target@, i as int);
    }
    None
}


/// The views of a mapping's rows.
pub open spec fn rows_view(rows: Seq<(String, String)>) -> Seq<(Seq<char>, Seq<char>)> {
    rows.map_values(|r: (String, String)| (r.0@, r.1@))
}

/// The text of the first element of `page` that `selector` matches.
pub open spec fn first_text(page: Seq<char>, selector: Seq<char>) -> Option<Seq<char>> {
    let t = selected_texts(page, selector);
    if t.len() > 0 {
        Some(t[0])
    } else {
        None
    }
}

/// The text held, or the empty text.
pub open spec fn or_empty(t: Option<Seq<char>>) -> Seq<char> {
    match t {
        Some(s) => s,
        None => Seq::empty(),
    }
}

/// The text of the first element of `page` that `selector` matches, or the
/// empty text.
pub fn first_text_or_empty(page: &str, selector: &str) -> (r: String)
    ensures
        r@ == or_empty(first_text(page@, selector@)),
{
    let mut texts = select_texts(page, selector);
    let ghost all = texts@;
    if texts.len() > 0 {
        let value = texts.swap_remove(0);
        assert(value@ == texts_view(all)[0]);
        value
    } else {
        String::new()
    }
}

/// A row for `key` when there is a value, and none otherwise.
pub open spec fn optional_row(key: Seq<char>, value: Option<Seq<char>>) -> Seq<
    (Seq<char>, Seq<char>),
> {
    match value {
        Some(v) => seq![(key, v)],
        None => Seq::empty(),
    }
}

/// A row for `key` holding `values` joined by `sep`, when there is any.
pub open spec fn list_row(key: Seq<char>, values: Seq<Seq<char>>, sep: Seq<char>) -> Seq<
    (Seq<char>, Seq<char>),
> {
    if values.len() > 0 {
        seq![(key, joined(values, sep))]
    } else {
        Seq::empty()
    }
}

/// Appends the row `(key, value)`.
pub fn push_row(rows: &mut Vec<(String, String)>, key: &str, value: String)
    ensures
        rows_view(final(rows)@) == rows_view(old(rows)@).push((key@, value@)),
{
    rows.push((String::from_str(key), value));
    assert(rows_view(rows@) =~= rows_view(old(rows)@).push((key@, value@)));
}

/// Appends a row for `key` with the text of the first element of `page`
/// that `selector` matches; a page without one gets no row.
pub fn push_first_text(rows: &mut Vec<(String, String)>, key: &str, page: &str, selector: &str)
    ensures
        rows_view(final(rows)@) == rows_view(old(rows)@) + optional_row(
            key@,
            first_text(page@, selector@),
        ),
{
    let mut texts = select_texts(page, selector);
    let ghost all = texts@;
    if texts.len() > 0 {
        let value = texts.swap_remove(0);
        assert(value@ == texts_view(all)[0]);
        push_row(rows, key, value);
    } else {
        assert(rows_view(rows@) =~= rows_view(old(rows)@) + Seq::empty());
    }
}

/// Appends a row for `key` with the texts of all elements of `page` that
/// `selector` matches, joined by `sep`; a page without one gets no row.
pub fn push_joined_texts(
    rows: &mut Vec<(String, String)>,
    key: &str,
    page: &str,
    selector: &str,
    sep: &str,
)
    ensures
        rows_view(final(rows)@) == rows_view(old(rows)@) + list_row(
            key@,
            selected_texts(page@, selector@),
            sep@,
        ),
{
    let texts = select_texts(page, selector);
    if texts.len() > 0 {
        let value = join(&texts, sep);
        push_row(rows, key, value);
    } else {
        assert(rows_view(rows@) =~= rows_view(old(rows)@) + Seq::empty());
    }
}

} // verus!
