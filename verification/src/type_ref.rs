//! A reference to a type: either an inline descriptor known at parse time,
//! or a symbolic `$ref` string resolved later through the registry.
//! Exactly one of the two is populated.

use vstd::prelude::*;
use crate::schema_type::{SchemaType, SchemaTypeV};

verus! {

/// A type reference awaiting resolution.
#[derive(Debug, PartialEq)]
pub struct TypeRef {
    pub _type: Option<SchemaType>,
    pub _ref: Option<String>,
}

/// The mathematical shape of a `TypeRef`.
#[verifier::ext_equal]
pub struct TypeRefV {
    pub _type: Option<SchemaTypeV>,
    pub _ref: Option<Seq<char>>,
}

impl View for TypeRef {
    type V = TypeRefV;

    open spec fn view(&self) -> TypeRefV {
        TypeRefV {
            _type: match &self._type {
                Some(t) => Some(t@),
                None => None,
            },
            _ref: match &self._ref {
                Some(r) => Some(r@),
                None => None,
            },
        }
    }
}

impl Clone for TypeRef {
    fn clone(&self) -> (r: Self)
        ensures
            r@ == self@,
    {
        TypeRef {
            _type: match &self._type {
                Some(t) => Some(t.clone()),
                None => None,
            },
            _ref: match &self._ref {
                Some(s) => Some(s.clone()),
                None => None,
            },
        }
    }
}

impl TypeRef {
    /// A symbolic reference.
    pub fn from_ref(_ref: Option<String>) -> (r: Self)
        ensures
            r@._type is None,
            r@._ref == match _ref {
                Some(s) => Some(s@),
                None => None::<Seq<char>>,
            },
    {
        Self { _type: None, _ref }
    }

    /// An inline reference to an already-resolved descriptor.
    pub fn from_type(_type: &SchemaType) -> (r: Self)
        ensures
            r@._type == Some(_type@),
            r@._ref is None,
    {
        Self { _type: Some(_type.clone()), _ref: None }
    }

    /// An inline reference to the native string type.
    pub fn native_string() -> (r: Self)
        ensures
            r@._type == Some(SchemaTypeV { ns: Seq::<char>::empty(), name: "String"@ }),
            r@._ref is None,
    {
        let t = SchemaType::new("", "String");
        proof {
            reveal_strlit("");
            assert(""@ =~= Seq::<char>::empty());
        }
        Self { _type: Some(t), _ref: None }
    }
}

} // verus!
