//! One property of a schema object: its name, flags, type reference and
//! optional literal-enum constraint.

use vstd::prelude::*;
use crate::type_ref::{TypeRef, TypeRefV};

verus! {

/// A parsed property.  When `enums` is present, `type_ref` names the
/// underlying representation type being constrained.
#[derive(Debug, PartialEq)]
pub struct Property {
    pub optional: bool,
    pub array: bool,
    pub name: String,
    pub title: Option<String>,
    pub description: Option<String>,
    pub type_ref: TypeRef,
    pub enums: Option<Vec<String>>,
}

/// The mathematical shape of a `Property`.
#[verifier::ext_equal]
pub struct PropertyV {
    pub optional: bool,
    pub array: bool,
    pub name: Seq<char>,
    pub title: Option<Seq<char>>,
    pub description: Option<Seq<char>>,
    pub type_ref: TypeRefV,
    pub enums: Option<Seq<Seq<char>>>,
}

impl View for Property {
    type V = PropertyV;

    open spec fn view(&self) -> PropertyV {
        PropertyV {
            optional: self.optional,
            array: self.array,
            name: self.name@,
            title: match &self.title {
                Some(s) => Some(s@),
                None => None,
            },
            description: match &self.description {
                Some(s) => Some(s@),
                None => None,
            },
            type_ref: self.type_ref@,
            enums: match &self.enums {
                Some(v) => Some(v.deep_view()),
                None => None,
            },
        }
    }
}

/// True when `n` collides with a reserved field name of the target
/// language's serialization attributes (`type` or `ref`).
pub open spec fn spec_reserved(n: Seq<char>) -> bool {
    n == "type"@ || n == "ref"@
}

impl Property {
    /// The field name to emit, the original name, and whether the name was
    /// reserved and so must be emitted with a leading underscore.
    pub fn name(&self) -> (r: (String, String, bool))
        ensures
            r.1@ == self.name@,
            r.2 == spec_reserved(self.name@),
            r.2 ==> r.0@ == "_"@ + self.name@,
            !r.2 ==> r.0@ == self.name@,
    {
        let reserved = crate::text::str_eq(self.name.as_str(), "type") || crate::text::str_eq(
            self.name.as_str(),
            "ref",
        );
        if reserved {
            let mut fixed = "_".to_owned();
            fixed.append(self.name.as_str());
            (fixed, self.name.clone(), true)
        } else {
            (self.name.clone(), self.name.clone(), false)
        }
    }
}

} // verus!
