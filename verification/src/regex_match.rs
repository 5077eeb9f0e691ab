//! Regular expression matching through the `regex` crate.

use vstd::prelude::*;

verus! {

#[verifier::external_type_specification]
#[verifier::external_body]
pub struct ExRegexError(regex::Error);

/// Whether `regex::Regex::new` accepts the pattern.
pub uninterp spec fn regex_compiles(pattern: Seq<char>) -> bool;

/// The capture groups of the leftmost-first match of the pattern in the text
/// (group 0 is the whole match; a group that did not participate is
/// `None`), or `None` where the pattern does not match.
pub uninterp spec fn regex_captures(pattern: Seq<char>, text: Seq<char>) -> Option<Seq<Option<Seq<char>>>>;

/// The texts of capture groups.
pub open spec fn groups_view(g: Seq<Option<String>>) -> Seq<Option<Seq<char>>> {
    g.map_values(|o: Option<String>| match o {
        Some(s) => Some(s@),
        None => None,
    })
}

/// `regex::Regex::new(pattern)` and then `Regex::captures(text)`: an error
/// where the pattern is not accepted; otherwise the texts of the capture
/// groups of the first match (see [`regex_captures`]), whose group 0 is
/// always present, or `None` where there is no match.
#[verifier::external_body]
pub(crate) fn captures(pattern: &str, text: &str) -> (res: Result<Option<Vec<Option<String>>>, regex::Error>)
    ensures
        res is Ok <==> regex_compiles(pattern@),
        res matches Ok(c) ==> match (c, regex_captures(pattern@, text@)) {
            (None, None) => true,
            (Some(g), Some(s)) => groups_view(g@) == s,
            _ => false,
        },
        res matches Ok(Some(g)) ==> g@.len() > 0 && g@[0] is Some,
{
    let re = regex::Regex::new(pattern)?;
    Ok(re.captures(text).map(|c| c.iter().map(|m| m.map(|m| m.as_str().to_string())).collect()))
}

} // verus!
