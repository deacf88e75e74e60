//! Regular expressions, matched by the `regex` crate. Every pattern that the
//! language uses is a constant of this crate; what the `regex` crate answers
//! for a pattern and a haystack is named here and trusted.

use vstd::prelude::*;

verus! {

/// Whether `regex::Regex::new(pattern)` builds a regex that matches somewhere
/// in `haystack` (false when the pattern does not compile).
pub uninterp spec fn regex_is_match(pattern: Seq<char>, haystack: Seq<char>) -> bool;

/// The capture groups of the leftmost-first match of `pattern` in
/// `haystack`: `None` when there is no match (or the pattern does not
/// compile), else group 0 (the whole match) and then each group, `None`
/// for a group that took no part in the match.
pub uninterp spec fn regex_captures(pattern: Seq<char>, haystack: Seq<char>) -> Option<
    Seq<Option<Seq<char>>>,
>;

/// The pieces of `haystack` between successive non-overlapping matches of
/// `pattern` (`Regex::split`), or the haystack whole when the pattern does
/// not compile.
pub uninterp spec fn regex_split(pattern: Seq<char>, haystack: Seq<char>) -> Seq<Seq<char>>;

pub open spec fn captures_view(r: Option<Vec<Option<String>>>) -> Option<Seq<Option<Seq<char>>>> {
    match r {
        Some(v) => Some(
            v@.map_values(
                |g: Option<String>|
                    match g {
                        Some(s) => Some(s@),
                        None => None,
                    },
            ),
        ),
        None => None,
    }
}

/// Calls `regex::Regex::new` and `Regex::is_match`; the result is named
/// `regex_is_match`, a function of the pattern and the haystack only.
#[verifier::external_body]
pub(crate) fn is_match(pattern: &str, haystack: &str) -> (r: bool)
    ensures
        r == regex_is_match(pattern@, haystack@),
{
    match regex::Regex::new(pattern) {
        Ok(re) => re.is_match(haystack),
        Err(_) => false,
    }
}

/// Calls `regex::Regex::new`, `Regex::captures` and `Captures::iter`,
/// copying each group's text; the result is named `regex_captures`,
/// a function of the pattern and the haystack only.
#[verifier::external_body]
pub(crate) fn captures(pattern: &str, haystack: &str) -> (r: Option<Vec<Option<String>>>)
    ensures
        captures_view(r) == regex_captures(pattern@, haystack@),
{
    let re = match regex::Regex::new(pattern) {
        Ok(re) => re,
        Err(_) => return None,
    };
    let caps = re.captures(haystack)?;
    Some(caps.iter().map(|g| g.map(|m| m.as_str().to_string())).collect())
}

/// Calls `regex::Regex::new` and `Regex::split`, copying each piece; the
/// result is named `regex_split`, a function of the pattern and the
/// haystack only.
#[verifier::external_body]
pub(crate) fn split(pattern: &str, haystack: &str) -> (r: Vec<String>)
    ensures
        r@.map_values(|s: String| s@) == regex_split(pattern@, haystack@),
{
    let re = match regex::Regex::new(pattern) {
        Ok(re) => re,
        Err(_) => return vec![haystack.to_string()],
    };
    re.split(haystack).map(|piece| piece.to_string()).collect()
}

/// The text of group `i`, when the match has that group and it took part.
pub open spec fn group(caps: Seq<Option<Seq<char>>>, i: int) -> Option<Seq<char>> {
    if 0 <= i < caps.len() {
        caps[i]
    } else {
        None
    }
}

/// The text of group `i` of a capture vector.
pub fn get_group(caps: &Vec<Option<String>>, i: usize) -> (r: Option<String>)
    ensures
        match r {
            Some(s) => group(captures_view(Some(*caps))->0, i as int) == Some(s@),
            None => group(captures_view(Some(*caps))->0, i as int) is None,
        },
{
    if i < caps.len() {
        match &caps[i] {
            Some(s) => Some(s.clone()),
            None => None,
        }
    } else {
        None
    }
}

} // verus!
