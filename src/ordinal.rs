use vstd::prelude::*;

use crate::decimal::{hundredths_of, parse_hundredths};
use crate::error::RobinError;

verus! {

/// A numeric token: an optional sign, digits, and at most one decimal
/// separator followed by at least one digit.
pub const NUMBER_PATTERN: &'static str = "[-+]?[0-9]*[.,]?[0-9]+";

/// The text of the leftmost-first match of the regular expression
/// `pattern` in `text`, if any.
pub uninterp spec fn regex_first_match(pattern: Seq<char>, text: Seq<char>) -> Option<Seq<char>>;

/// Relies on `regex::Regex::new` and `regex::Regex::find`: the result is the
/// leftmost-first match of `pattern` in `text`, a function of the two strings
/// alone; a pattern that does not compile matches nothing.
#[verifier::external_body]
fn regex_find(pattern: &str, text: &str) -> (r: Option<String>)
    ensures
        match r {
            Some(m) => regex_first_match(pattern@, text@) == Some(m@),
            None => regex_first_match(pattern@, text@) is None,
        },
{
    match regex::Regex::new(pattern) {
        Ok(re) => re.find(text).map(|m| m.as_str().to_string()),
        Err(_) => None,
    }
}

/// The ordinal, in hundredths, of a chapter whose title holds the numeric
/// token `token` first; `None` where the title holds none.
pub open spec fn ordinal_of_token(token: Option<Seq<char>>) -> Option<int> {
    match token {
        Some(t) => hundredths_of(t),
        None => None,
    }
}

/// The ordinal, in hundredths, of a chapter titled `title`.
pub open spec fn ordinal_of_title(title: Seq<char>) -> Option<int> {
    ordinal_of_token(regex_first_match(NUMBER_PATTERN@, title))
}

/// The ordinal of a chapter from its title: the first numeric token in it,
/// in hundredths, rounded half away from zero. A title without a numeric
/// token is an error.
pub fn chapter_ordinal(title: &str) -> (r: Result<i64, RobinError>)
    ensures
        match r {
            Ok(v) => ordinal_of_title(title@) == Some(v as int),
            Err(e) => ordinal_of_title(title@) is None && e is Parse,
        },
{
    match regex_find(NUMBER_PATTERN, title) {
        Some(token) => match parse_hundredths(token.as_str()) {
            Some(v) => Ok(v),
            None => Err(RobinError::Parse(String::from_str("malformed chapter number"))),
        },
        None => Err(RobinError::Parse(String::from_str("chapter title holds no number"))),
    }
}

} // verus!
