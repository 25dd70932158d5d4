//! Searching a text with a regular expression.
use vstd::prelude::*;

verus! {

/// The matches of the regular expression `pattern` in `text`: the matched pieces, from
/// left to right, or `None` where `pattern` is no regular expression.
pub uninterp spec fn regex_matches(pattern: Seq<char>, text: Seq<char>) -> Option<Seq<Seq<char>>>;

/// Compiles `pattern` with `regex::Regex::new` and walks `text` with
/// `regex::Regex::find_iter`, which yields the successive non-overlapping matches.
/// What is matched follows from the pattern and the text alone, by rules too long to
/// state here: the contract gives the matched pieces a name and claims nothing else.
/// A pattern that does not compile gives `None`.
#[verifier::external_body]
pub(crate) fn find_matches(pattern: &str, text: &str) -> (r: Option<Vec<String>>)
    ensures
        match r {
            Some(found) => regex_matches(pattern@, text@) == Some(found.deep_view()),
            None => regex_matches(pattern@, text@) is None,
        },
{
    match regex::Regex::new(pattern) {
        Ok(re) => Some(re.find_iter(text).map(|m| m.as_str().to_string()).collect()),
        Err(_) => None,
    }
}

/// The pieces of `text` that the regular expression `pattern` does not match: what
/// stands before the first match, between each match and the next, and behind the last;
/// or `None` where `pattern` is no regular expression.
pub uninterp spec fn regex_pieces(pattern: Seq<char>, text: Seq<char>) -> Option<Seq<Seq<char>>>;

/// Compiles `pattern` with `regex::Regex::new` and splits `text` with
/// `regex::Regex::split`, which yields the substrings of the text that are delimited by
/// the successive non-overlapping matches. The contract gives these substrings a name
/// and claims nothing else. A pattern that does not compile gives `None`.
#[verifier::external_body]
pub(crate) fn split_text(pattern: &str, text: &str) -> (r: Option<Vec<String>>)
    ensures
        match r {
            Some(pieces) => regex_pieces(pattern@, text@) == Some(pieces.deep_view()),
            None => regex_pieces(pattern@, text@) is None,
        },
{
    match regex::Regex::new(pattern) {
        Ok(re) => Some(re.split(text).map(|p| p.to_string()).collect()),
        Err(_) => None,
    }
}

/// For each match of the regular expression `pattern` in `text`, from left to right,
/// what its capture group number `group` matched, if the group took part in the match;
/// or `None` where `pattern` is no regular expression.
pub uninterp spec fn regex_groups(pattern: Seq<char>, group: int, text: Seq<char>) -> Option<
    Seq<Option<Seq<char>>>,
>;

/// Compiles `pattern` with `regex::Regex::new`, walks `text` with
/// `regex::Regex::captures_iter`, which yields the successive non-overlapping matches
/// with their capture groups, and asks each for one group with `regex::Captures::get`,
/// which gives `None` for a group that did not take part or that the pattern does not
/// have. The contract gives the texts of the groups a name and claims nothing else. A
/// pattern that does not compile gives `None`.
#[verifier::external_body]
pub(crate) fn group_texts(pattern: &str, group: usize, text: &str) -> (r: Option<
    Vec<Option<String>>,
>)
    ensures
        match r {
            Some(groups) => regex_groups(pattern@, group as int, text@) == Some(
                groups.deep_view(),
            ),
            None => regex_groups(pattern@, group as int, text@) is None,
        },
{
    match regex::Regex::new(pattern) {
        Ok(re) => Some(
            re.captures_iter(text).map(|c| c.get(group).map(|m| m.as_str().to_string())).collect(),
        ),
        Err(_) => None,
    }
}

} // verus!
