//! Case conversion for definition keys and synthesized names.
//!
//! The conversions themselves are done by the `convert_case` crate; their
//! results are named by uninterpreted spec functions, so contracts elsewhere
//! can state exactly how a normalized name is assembled from them.

use convert_case::{Case, Casing};
use vstd::prelude::*;

verus! {

/// The characters of `s` converted to snake_case.
pub uninterp spec fn snake_of(s: Seq<char>) -> Seq<char>;

/// The characters of `s` converted to PascalCase.
pub uninterp spec fn pascal_of(s: Seq<char>) -> Seq<char>;

/// Relies on convert_case's `Casing::to_case` with `Case::Snake`:
/// the result is a pure function of the characters of `s`.
#[verifier::external_body]
pub fn to_snake(s: &str) -> (r: String)
    ensures
        r@ == snake_of(s@),
{
    s.to_case(Case::Snake)
}

/// Relies on convert_case's `Casing::to_case` with `Case::Pascal`:
/// the result is a pure function of the characters of `s`.
#[verifier::external_body]
pub fn to_pascal(s: &str) -> (r: String)
    ensures
        r@ == pascal_of(s@),
{
    s.to_case(Case::Pascal)
}

} // verus!
