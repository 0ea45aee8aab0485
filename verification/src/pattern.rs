//! Matching of regular expressions, done by the `regex` crate.
//!
//! Nothing here is proved.  What `regex` answers is a function of the
//! pattern and the text alone; the three names below stand for its
//! answers, and the contracts of the library speak of them.  A match is
//! taken as a candidate: the library tests in verified code what it states
//! of a mention, a tag or a value.

use crate::text::strs;
use vstd::prelude::*;

verus! {

#[verifier::external_type_specification]
#[verifier::external_body]
pub struct ExPatternError(regex::Error);

/// Whether `regex::Regex::new` accepts `pattern`.
pub uninterp spec fn pattern_ok(pattern: Seq<char>) -> bool;

/// The texts of the successive non-overlapping matches of `pattern` in
/// `text`, as `regex::Regex::find_iter` yields them.
pub uninterp spec fn all_matches(pattern: Seq<char>, text: Seq<char>) -> Seq<Seq<char>>;

/// The first match of `pattern` in `text`, as `regex::Regex::captures` finds
/// it: the text of each capture group in the order of the groups, the whole
/// match at index 0, `None` for a group that took no part in the match.
pub uninterp spec fn first_captures(pattern: Seq<char>, text: Seq<char>) -> Option<
    Seq<Option<Seq<char>>>,
>;

/// The views of the texts of capture groups.
pub open spec fn groups(found: Seq<Option<String>>) -> Seq<Option<Seq<char>>> {
    Seq::new(
        found.len(),
        |i: int|
            match found[i] {
                Some(s) => Some(s@),
                None => None,
            },
    )
}

/// What a search for the first match found, as plain values.
pub open spec fn captures_view(found: Option<Vec<Option<String>>>) -> Option<
    Seq<Option<Seq<char>>>,
> {
    match found {
        Some(v) => Some(groups(v@)),
        None => None,
    }
}

/// Whether `c` has a meaning of its own in a pattern.
pub open spec fn is_meta(c: char) -> bool {
    ||| c == '\\'
    ||| c == '.'
    ||| c == '+'
    ||| c == '*'
    ||| c == '?'
    ||| c == '('
    ||| c == ')'
    ||| c == '|'
    ||| c == '['
    ||| c == ']'
    ||| c == '{'
    ||| c == '}'
    ||| c == '^'
    ||| c == '$'
    ||| c == '#'
    ||| c == '&'
    ||| c == '-'
    ||| c == '~'
}

/// `text` with a backslash before each character that has a meaning of its
/// own in a pattern.
pub open spec fn escaped(text: Seq<char>) -> Seq<char>
    decreases text.len(),
{
    if text.len() == 0 {
        Seq::empty()
    } else if is_meta(text.last()) {
        escaped(text.drop_last()).push('\\').push(text.last())
    } else {
        escaped(text.drop_last()).push(text.last())
    }
}

/// Calls `regex::escape`, which goes through the characters of `text` and
/// puts a backslash before each that `regex_syntax::is_meta_character`
/// names.  Nothing is proved of it.
#[verifier::external_body]
pub(crate) fn escape(text: &str) -> (r: String)
    ensures
        r@ == escaped(text@),
{
    regex::escape(text)
}

/// Compiles `pattern` with `regex::Regex::new` and collects what
/// `regex::Regex::find_iter` yields on `text`, each match as the text that
/// `regex::Match::as_str` gives.  The error is that of `Regex::new`; the
/// search itself does not fail.
#[verifier::external_body]
pub(crate) fn find_all(pattern: &str, text: &str) -> (r: Result<Vec<String>, regex::Error>)
    ensures
        r is Ok <==> pattern_ok(pattern@),
        r matches Ok(found) ==> strs(found@) == all_matches(pattern@, text@),
{
    let re = regex::Regex::new(pattern)?;
    Ok(re.find_iter(text).map(|m| m.as_str().to_string()).collect())
}

/// Compiles `pattern` with `regex::Regex::new` and searches `text` with
/// `regex::Regex::captures`.  A match is handed out as the texts of its
/// capture groups, in the order of `regex::Captures::iter`.  The error is
/// that of `Regex::new`; the search itself does not fail.
#[verifier::external_body]
pub(crate) fn find_first(pattern: &str, text: &str) -> (r: Result<
    Option<Vec<Option<String>>>,
    regex::Error,
>)
    ensures
        r is Ok <==> pattern_ok(pattern@),
        r matches Ok(found) ==> captures_view(found) == first_captures(pattern@, text@),
{
    let re = regex::Regex::new(pattern)?;
    Ok(re.captures(text).map(|c| c.iter().map(|g| g.map(|m| m.as_str().to_string())).collect()))
}

} // verus!
