//! Regular expressions, as the `regex` crate matches them.

use vstd::prelude::*;

verus! {

/// The message with which `regex::Regex::new` refuses `pattern`, if it does.
pub uninterp spec fn regex_syntax_error(pattern: Seq<char>) -> Option<Seq<char>>;

/// Whether `regex::Regex::is_match` finds a match of `pattern` somewhere in
/// `text`, or the message with which `pattern` is refused.
pub uninterp spec fn regex_is_match(pattern: Seq<char>, text: Seq<char>) -> Result<
    bool,
    Seq<char>,
>;

/// For each match that `regex::Regex::captures_iter` yields for `pattern` in
/// `text`, in order, the text of its first capture group where that group took
/// part in the match; or the message with which `pattern` is refused.
pub uninterp spec fn regex_first_groups(pattern: Seq<char>, text: Seq<char>) -> Result<
    Seq<Option<Seq<char>>>,
    Seq<char>,
>;

/// The views of a sequence of optional strings.
pub open spec fn optional_texts(v: Seq<Option<String>>) -> Seq<Option<Seq<char>>> {
    v.map_values(
        |o: Option<String>|
            match o {
                Some(s) => Some(s@),
                None => None,
            },
    )
}

/// Compiles `pattern` with `regex::Regex::new` and hands back the error's
/// message where the pattern is refused. The outcome depends on the pattern
/// alone.
#[verifier::external_body]
pub(crate) fn syntax_error(pattern: &str) -> (r: Option<String>)
    ensures
        match r {
            Some(e) => regex_syntax_error(pattern@) == Some(e@),
            None => regex_syntax_error(pattern@) is None,
        },
{
    match regex::Regex::new(pattern) {
        Ok(_) => None,
        Err(e) => Some(e.to_string()),
    }
}

/// Compiles `pattern` with `regex::Regex::new` and asks `Regex::is_match`
/// whether it matches somewhere in `text`; a refused pattern gives the
/// error's message. The outcome depends on the two texts alone.
#[verifier::external_body]
pub(crate) fn is_match(pattern: &str, text: &str) -> (r: Result<bool, String>)
    ensures
        match r {
            Ok(found) => regex_is_match(pattern@, text@) == Ok::<bool, Seq<char>>(found),
            Err(e) => regex_is_match(pattern@, text@) == Err::<bool, Seq<char>>(e@),
        },
{
    match regex::Regex::new(pattern) {
        Ok(re) => Ok(re.is_match(text)),
        Err(e) => Err(e.to_string()),
    }
}

/// Compiles `pattern` with `regex::Regex::new` and walks the successive
/// non-overlapping matches of `Regex::captures_iter` in `text`, taking from
/// each the text of capture group 1 (`Captures::get`), which is absent where
/// the group took no part; a refused pattern gives the error's message. The
/// outcome depends on the two texts alone.
#[verifier::external_body]
pub(crate) fn first_groups(pattern: &str, text: &str) -> (r: Result<Vec<Option<String>>, String>)
    ensures
        match r {
            Ok(groups) => regex_first_groups(pattern@, text@) == Ok::<
                Seq<Option<Seq<char>>>,
                Seq<char>,
            >(optional_texts(groups@)),
            Err(e) => regex_first_groups(pattern@, text@) == Err::<
                Seq<Option<Seq<char>>>,
                Seq<char>,
            >(e@),
        },
{
    match regex::Regex::new(pattern) {
        Ok(re) => Ok(
            re.captures_iter(text).map(|c| c.get(1).map(|m| m.as_str().to_string())).collect(),
        ),
        Err(e) => Err(e.to_string()),
    }
}

} // verus!
