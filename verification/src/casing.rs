//! Naming conventions for generated identifiers.

use vstd::prelude::*;
use convert_case::Casing;

verus! {

/// A naming convention.
#[derive(Clone, Copy, Debug, PartialEq, Eq, Structural)]
pub enum Case {
    /// `MyVariableName`
    Pascal,
    /// `myVariableName`
    Camel,
    /// `my_variable_name`
    Snake,
    /// `MY_VARIABLE_NAME`
    ScreamingSnake,
}

/// What `convert_case` makes of `text` in the convention `case`.
pub uninterp spec fn cased(text: Seq<char>, case: Case) -> Seq<char>;

/// What `str::to_lowercase` makes of `text`.
pub uninterp spec fn lowercased(text: Seq<char>) -> Seq<char>;

/// `convert_case::Casing::to_case`, with the convention of the same name:
/// the contract gives its result the name [`cased`] and claims no more.
#[verifier::external_body]
pub(crate) fn to_case(text: &str, case: Case) -> (r: String)
    ensures
        r@ == cased(text@, case),
{
    match case {
        Case::Pascal => text.to_case(convert_case::Case::Pascal),
        Case::Camel => text.to_case(convert_case::Case::Camel),
        Case::Snake => text.to_case(convert_case::Case::Snake),
        Case::ScreamingSnake => text.to_case(convert_case::Case::ScreamingSnake),
    }
}

/// `str::to_lowercase`: the contract gives its result the name
/// [`lowercased`] and claims no more.
#[verifier::external_body]
pub(crate) fn to_lowercase(text: &str) -> (r: String)
    ensures
        r@ == lowercased(text@),
{
    text.to_lowercase()
}

} // verus!
