//! Numeric-refinement metadata: a constraint on the integer datatype.

use vstd::prelude::*;

verus! {

/// A constraint on the integer datatype.
#[derive(Debug, Clone, PartialEq)]
pub struct NumberType {
    pub minimum: Option<u32>,
}

} // verus!
