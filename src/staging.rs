use vstd::prelude::*;
use vstd::string::*;

use crate::text::{
    after_last, chars_of, decimal_text, join, joined, push_char, push_decimal, text_after_last,
    texts_view, trim, trimmed, zero_padded,
};

verus! {

/// The width to which page numbers are padded with zeros.
pub const PAGE_NUMBER_WIDTH: usize = 4;

/// `cover.` followed by `ext`.
pub open spec fn cover_name(ext: Seq<char>) -> Seq<char> {
    seq!['c', 'o', 'v', 'e', 'r', '.'] + ext
}

/// The file that holds the cover art in the staging area.
pub fn cover_file_name(ext: &str) -> (r: String)
    ensures
        r@ == cover_name(ext@),
{
    let mut r = String::new();
    push_char(&mut r, 'c');
    push_char(&mut r, 'o');
    push_char(&mut r, 'v');
    push_char(&mut r, 'e');
    push_char(&mut r, 'r');
    push_char(&mut r, '.');
    r.append(ext);
    assert(r@ =~= cover_name(ext@));
    r
}

/// `title` followed by `.txt`.
pub open spec fn text_chapter_name(title: Seq<char>) -> Seq<char> {
    title + seq!['.', 't', 'x', 't']
}

/// The file that holds a novel chapter's text in the staging area.
pub fn text_chapter_file_name(title: &str) -> (r: String)
    ensures
        r@ == text_chapter_name(title@),
{
    let mut r = String::from_str(title);
    push_char(&mut r, '.');
    push_char(&mut r, 't');
    push_char(&mut r, 'x');
    push_char(&mut r, 't');
    assert(r@ =~= text_chapter_name(title@));
    r
}

/// The name of page `index` of a chapter: its number padded with zeros to
/// four digits, a point and the extension.
pub open spec fn page_name(index: nat, ext: Seq<char>) -> Seq<char> {
    zero_padded(decimal_text(index), PAGE_NUMBER_WIDTH as nat) + seq!['.'] + ext
}

/// The extension of a locator: what follows its last point.
pub open spec fn extension_of(url: Seq<char>) -> Seq<char> {
    after_last(url, '.')
}

/// The file name of page `index` of a manga chapter, with the extension of
/// `final_url`, the locator the page's response came from.
pub fn page_file_name(index: u64, final_url: &str) -> (r: String)
    ensures
        r@ == page_name(index as nat, extension_of(final_url@)),
{
    let mut digits = String::new();
    push_decimal(&mut digits, index);
    assert(digits@ =~= decimal_text(index as nat));
    let len = digits.as_str().unicode_len();
    let pad: usize = if len < PAGE_NUMBER_WIDTH {
        PAGE_NUMBER_WIDTH - len
    } else {
        0
    };
    let mut r = String::new();
    let mut i: usize = 0;
    while i < pad
        invariant
            i <= pad,
            r@ == Seq::new(i as nat, |j: int| '0'),
        decreases pad - i,
    {
        push_char(&mut r, '0');
        i = i + 1;
        assert(r@ =~= Seq::new(i as nat, |j: int| '0'));
    }
    r.append(digits.as_str());
    assert(r@ =~= zero_padded(decimal_text(index as nat), PAGE_NUMBER_WIDTH as nat));
    push_char(&mut r, '.');
    let ext = text_after_last(final_url, '.');
    r.append(ext.as_str());
    r
}

/// The code of a publication status in the metadata document.
pub open spec fn status_code(status: Seq<char>) -> nat {
    if status == "Devam Ediyor"@ {
        1
    } else if status == "Final"@ {
        2
    } else if status == "Sezon Finali"@ || status == "Askıda"@ {
        6
    } else {
        0
    }
}

/// Maps a site's status text to the metadata document's code: ongoing 1,
/// finished 2, on hiatus 6, anything else 0.
pub fn status_to_code(status: &str) -> (r: u64)
    ensures
        r == status_code(status@),
{
    let s = String::from_str(status);
    if s == String::from_str("Devam Ediyor") {
        1
    } else if s == String::from_str("Final") {
        2
    } else if s == String::from_str("Sezon Finali") || s == String::from_str("Askıda") {
        6
    } else {
        0
    }
}

/// The hexadecimal digit of `d`, below sixteen.
pub open spec fn hex_char(d: int) -> char {
    if d < 10 {
        (d + '0' as int) as char
    } else {
        (d - 10 + 'a' as int) as char
    }
}

/// A character as it stands inside a JSON string.
pub open spec fn json_char(c: char) -> Seq<char> {
    if c == '"' {
        seq!['\\', '"']
    } else if c == '\\' {
        seq!['\\', '\\']
    } else if c == '\n' {
        seq!['\\', 'n']
    } else if c == '\r' {
        seq!['\\', 'r']
    } else if c == '\t' {
        seq!['\\', 't']
    } else if (c as int) < 32 {
        seq!['\\', 'u', '0', '0', hex_char(c as int / 16), hex_char(c as int % 16)]
    } else {
        seq![c]
    }
}

/// `s` escaped for a JSON string.
pub open spec fn json_escaped(s: Seq<char>) -> Seq<char>
    decreases s.len(),
{
    if s.len() == 0 {
        s
    } else {
        json_escaped(s.drop_last()) + json_char(s.last())
    }
}

fn push_hex(out: &mut String, d: u32)
    requires
        d < 16,
    ensures
        final(out)@ == old(out)@.push(hex_char(d as int)),
{
    if d < 10 {
        push_char(out, ((d + 48) as u8) as char);
    } else {
        push_char(out, ((d - 10 + 97) as u8) as char);
    }
}

/// The code of a control character.
fn control_code(c: char) -> (r: u8)
    requires
        (c as int) < 32,
    ensures
        r as int == c as int,
{
    let mut d: u8 = 0;
    while d < 32
        invariant
            d <= 32,
            (c as int) >= d,
        decreases 32 - d,
    {
        if (d as char) == c {
            return d;
        }
        d = d + 1;
    }
    d
}

/// Appends `s`, escaped for a JSON string, to `out`.
pub fn push_json_escaped(out: &mut String, s: &str)
    ensures
        final(out)@ == old(out)@ + json_escaped(s@),
{
    let cs = chars_of(s);
    let ghost start = out@;
    let mut i: usize = 0;
    while i < cs.len()
        invariant
            i <= cs@.len(),
            cs@ == s@,
            out@ == start + json_escaped(cs@.take(i as int)),
        decreases cs.len() - i,
    {
        let c = cs[i];
        let ghost before = out@;
        if c == '"' {
            push_char(out, '\\');
            push_char(out, '"');
        } else if c == '\\' {
            push_char(out, '\\');
            push_char(out, '\\');
        } else if c == '\n' {
            push_char(out, '\\');
            push_char(out, 'n');
        } else if c == '\r' {
            push_char(out, '\\');
            push_char(out, 'r');
        } else if c == '\t' {
            push_char(out, '\\');
            push_char(out, 't');
        } else if '\u{1f}' >= c {
            let code = control_code(c);
            push_char(out, '\\');
            push_char(out, 'u');
            push_char(out, '0');
            push_char(out, '0');
            push_hex(out, (code / 16) as u32);
            push_hex(out, (code % 16) as u32);
        } else {
            push_char(out, c);
        }
        proof {
            assert(out@ =~= before + json_char(c));
            assert(cs@.take(i + 1).drop_last() =~= cs@.take(i as int));
        }
        i = i + 1;
    }
    assert(cs@.take(i as int) =~= s@);
}


/// A JSON string holding `s`.
pub open spec fn json_string(s: Seq<char>) -> Seq<char> {
    seq!['"'] + json_escaped(s) + seq!['"']
}

/// `s` as a JSON string.
pub fn to_json_string(s: &str) -> (r: String)
    ensures
        r@ == json_string(s@),
{
    let mut r = String::new();
    push_char(&mut r, '"');
    push_json_escaped(&mut r, s);
    push_char(&mut r, '"');
    assert(r@ =~= json_string(s@));
    r
}

/// The JSON strings of `items`.
pub open spec fn json_strings(items: Seq<Seq<char>>) -> Seq<Seq<char>> {
    items.map_values(|s: Seq<char>| json_string(s))
}

/// The metadata document of a series: title, author, artist and
/// description (the last three without surrounding whitespace), the genre
/// list and the status code.
pub open spec fn details_text(
    title: Seq<char>,
    author: Seq<char>,
    artist: Seq<char>,
    description: Seq<char>,
    genres: Seq<Seq<char>>,
    status: Seq<char>,
) -> Seq<char> {
    "{\"title\": "@ + json_string(title) + ", \"author\": "@ + json_string(trimmed(author))
        + ", \"artist\": "@ + json_string(trimmed(artist)) + ", \"description\": "@ + json_string(
        trimmed(description),
    ) + ", \"genre\": ["@ + joined(json_strings(genres), ", "@) + "], \"status\": \""@
        + decimal_text(status_code(status)) + "\"}\n"@
}

/// Writes the metadata document of a series.
pub fn details_json(
    title: &str,
    author: &str,
    artist: &str,
    description: &str,
    genres: &Vec<String>,
    status: &str,
) -> (r: String)
    ensures
        r@ == details_text(title@, author@, artist@, description@, texts_view(genres@), status@),
{
    let mut quoted: Vec<String> = Vec::new();
    let mut i: usize = 0;
    while i < genres.len()
        invariant
            i <= genres@.len(),
            quoted@.len() == i,
            forall|j: int| 0 <= j < i ==> (#[trigger] quoted@[j])@ == json_string(genres@[j]@),
        decreases genres.len() - i,
    {
        quoted.push(to_json_string(genres[i].as_str()));
        i = i + 1;
    }
    assert(texts_view(quoted@) =~= json_strings(texts_view(genres@)));
    let mut r = String::from_str("{\"title\": ");
    r.append(to_json_string(title).as_str());
    r.append(", \"author\": ");
    r.append(to_json_string(trim(author).as_str()).as_str());
    r.append(", \"artist\": ");
    r.append(to_json_string(trim(artist).as_str()).as_str());
    r.append(", \"description\": ");
    r.append(to_json_string(trim(description).as_str()).as_str());
    r.append(", \"genre\": [");
    r.append(join(&quoted, ", ").as_str());
    r.append("], \"status\": \"");
    push_decimal(&mut r, status_to_code(status));
    r.append("\"}\n");
    r
}

} // verus!
