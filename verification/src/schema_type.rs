//! A resolved type descriptor: a namespace path and a type name, enough to
//! generate a `use` statement for the type.

use vstd::prelude::*;
use crate::schema_object::SchemaObject;

verus! {

/// One concrete generated type: its namespace path (segments joined by
/// `::`) and its name.
#[derive(Debug, PartialEq)]
pub struct SchemaType {
    pub ns: String,
    pub name: String,
}

/// The mathematical shape of a `SchemaType`.
#[verifier::ext_equal]
pub struct SchemaTypeV {
    pub ns: Seq<char>,
    pub name: Seq<char>,
}

impl View for SchemaType {
    type V = SchemaTypeV;

    open spec fn view(&self) -> SchemaTypeV {
        SchemaTypeV { ns: self.ns@, name: self.name@ }
    }
}

impl DeepView for SchemaType {
    type V = SchemaTypeV;

    open spec fn deep_view(&self) -> SchemaTypeV {
        self.view()
    }
}

impl Clone for SchemaType {
    fn clone(&self) -> (r: Self)
        ensures
            r == *self,
    {
        SchemaType { ns: self.ns.clone(), name: self.name.clone() }
    }
}

impl SchemaType {
    /// A descriptor with the given namespace path and name.
    pub fn new(ns: &str, name: &str) -> (r: Self)
        ensures
            r@ == (SchemaTypeV { ns: ns@, name: name@ }),
    {
        Self { ns: ns.to_owned(), name: name.to_owned() }
    }

    /// The descriptor of an already-parsed schema object.
    pub fn from(obj: &SchemaObject) -> (r: Self)
        ensures
            r@ == (SchemaTypeV { ns: obj.ns@, name: obj.name@ }),
    {
        Self { ns: obj.ns.clone(), name: obj.name.clone() }
    }
}

} // verus!
