//! Trusted boundary to the regex crate: the compiled pattern type,
//! compilation, and the extraction of one line's captures into plain
//! values that the verified context builder consumes.
//!
//! Nothing is assumed about what a pattern matches: the verified code
//! takes the extracted captures as they come and is proved correct for
//! every value of them.

use regex::Regex;
use vstd::prelude::*;

use crate::field::is_digit_char;

verus! {

/// Declares regex's compiled-pattern type; its values are opaque to
/// the verifier and only carried through.
#[verifier::external_type_specification]
#[verifier::external_body]
pub struct ExRegex(Regex);

/// Whether regex::Regex::new accepts a pattern text: compilation is a
/// function of the pattern alone.
pub uninterp spec fn regex_ok(pattern: Seq<char>) -> bool;

/// Relies on regex::Regex::new: compiles the pattern, failing exactly
/// on an invalid one, and compilation depends on the pattern text
/// alone.
#[verifier::external_body]
pub(crate) fn regex_new(pattern: &str) -> (r: Option<Regex>)
    ensures
        r is Some <==> regex_ok(pattern@),
{
    Regex::new(pattern).ok()
}

/// Relies on regex::Regex::capture_names: one entry per capture-group
/// slot of the pattern, in slot order (slot 0 is the implicit
/// whole-match group), holding the group's name where it has one.  A
/// capture-group name is never empty and never starts with a digit:
/// the parser requires its first character to be alphabetic or an
/// underscore.
#[verifier::external_body]
pub(crate) fn capture_names_of(pattern: &Regex) -> (r: Vec<Option<String>>)
    ensures
        forall|i: int|
            0 <= i < r.deep_view().len() ==> match #[trigger] r.deep_view()[i] {
                Some(nm) => nm.len() > 0 && !is_digit_char(nm[0]),
                None => true,
            },
{
    pattern.capture_names().map(|n| n.map(|s| s.to_string())).collect()
}

/// Relies on regex::Regex::captures_iter and regex::Captures::iter:
/// for every match of the pattern over the haystack, in match order,
/// one entry per capture-group slot, holding the matched text where
/// the slot participated in that match.
#[verifier::external_body]
pub(crate) fn captures_of(pattern: &Regex, haystack: &str) -> (r: Vec<Vec<Option<String>>>) {
    pattern
        .captures_iter(haystack)
        .map(|caps| caps.iter().map(|m| m.map(|x| x.as_str().to_string())).collect())
        .collect()
}

} // verus!
