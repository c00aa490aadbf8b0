//! Searching a text with a regular expression.

use vstd::prelude::*;
use crate::text::option_text;

verus! {

/// The text that capture group number `group` of the regular expression
/// `pattern` holds in the leftmost match of `pattern` in `haystack`, as the
/// `regex` crate finds it. Nothing where the pattern does not compile, where
/// it matches nowhere, or where the group took no part in the match.
pub uninterp spec fn regex_capture(pattern: Seq<char>, haystack: Seq<char>, group: nat) -> Option<
    Seq<char>,
>;

/// `regex::Regex::new` on `pattern`, then `Regex::captures` on `haystack`,
/// and of what was captured the text of one group (`Captures::get`,
/// `Match::as_str`). The contract claims only that the outcome is the one
/// `regex_capture` names for the same pattern, text and group.
#[verifier::external_body]
pub(crate) fn capture(pattern: &str, haystack: &str, group: usize) -> (text: Option<String>)
    ensures
        option_text(text) == regex_capture(pattern@, haystack@, group as nat),
{
    let re = regex::Regex::new(pattern).ok()?;
    let found = re.captures(haystack)?;
    Some(found.get(group)?.as_str().to_owned())
}

} // verus!
