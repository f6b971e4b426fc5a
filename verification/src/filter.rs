//! The filter: a regular expression that selects tests by their names.

use vstd::prelude::*;

verus! {

/// A compiled regular expression.
#[verifier::external_type_specification]
#[verifier::external_body]
pub struct ExRegex(regex::Regex);

/// Whether the regular expression matches somewhere in the text.
pub uninterp spec fn accepts(filter: regex::Regex, text: Seq<char>) -> bool;

/// Calls `regex::Regex::is_match`, which searches the text for a match of
/// the expression.
#[verifier::external_body]
fn is_match(filter: &regex::Regex, text: &str) -> (found: bool)
    ensures
        found == accepts(*filter, text@),
{
    filter.is_match(text)
}

/// Whether a test with this name is to be run: always without a filter,
/// else where the filter matches the name.
pub open spec fn selected(filter: Option<regex::Regex>, name: Seq<char>) -> bool {
    match filter {
        Some(filter) => accepts(filter, name),
        None => true,
    }
}

/// Whether a test with this name is to be run under the filter.
pub fn is_selected(filter: &Option<regex::Regex>, name: &str) -> (run: bool)
    ensures
        run == selected(*filter, name@),
{
    match filter {
        Some(filter) => is_match(filter, name),
        None => true,
    }
}

} // verus!
