//! The closed list of built-in primitive datatype names.  Definitions with
//! these names are provided by an external primitives module and are never
//! generated by this pipeline.

use vstd::prelude::*;
use crate::text::str_eq;

verus! {

/// The names of the built-in primitive datatypes.
pub open spec fn data_types_spec() -> Seq<Seq<char>> {
    seq![
        "Base64Datatype"@,
        "BooleanDatatype"@,
        "DateDatatype"@,
        "DateTimeWithTimezoneDatatype"@,
        "EmailAddressDatatype"@,
        "IntegerDatatype"@,
        "NonNegativeIntegerDatatype"@,
        "PositiveIntegerDatatype"@,
        "StringDatatype"@,
        "TokenDatatype"@,
        "URIDatatype"@,
        "URIReferenceDatatype"@,
        "UUIDDatatype"@,
    ]
}

/// The built-in datatype names, in the order of `data_types_spec`.
pub fn data_type_names() -> (r: Vec<&'static str>)
    ensures
        r.deep_view() == data_types_spec(),
{
    let mut v: Vec<&'static str> = Vec::new();
    v.push("Base64Datatype");
    v.push("BooleanDatatype");
    v.push("DateDatatype");
    v.push("DateTimeWithTimezoneDatatype");
    v.push("EmailAddressDatatype");
    v.push("IntegerDatatype");
    v.push("NonNegativeIntegerDatatype");
    v.push("PositiveIntegerDatatype");
    v.push("StringDatatype");
    v.push("TokenDatatype");
    v.push("URIDatatype");
    v.push("URIReferenceDatatype");
    v.push("UUIDDatatype");
    proof {
        assert(v.deep_view() =~= data_types_spec());
    }
    v
}

/// True when `value` is one of the built-in datatype names.
pub fn is_datatype(value: &str) -> (r: bool)
    ensures
        r == data_types_spec().contains(value@),
{
    let names = data_type_names();
    let mut i: usize = 0;
    while i < names.len()
        invariant
            names.deep_view() == data_types_spec(),
            0 <= i <= names.deep_view().len(),
            forall|j: int| 0 <= j < i ==> data_types_spec()[j] != value@,
        decreases names.len() - i,
    {
        assert(names.deep_view().len() == names@.len());
        if str_eq(names[i], value) {
            assert(data_types_spec()[i as int] == value@);
            return true;
        }
        assert(names[i as int].deep_view() == data_types_spec()[i as int]);
        i += 1;
    }
    assert(forall|j: int| 0 <= j < data_types_spec().len() ==> data_types_spec()[j] != value@);
    false
}

} // verus!
