//! The legacy `anyOf`/`allOf`-as-enum-ref idiom: a pair whose first member
//! holds a `$ref` and whose second holds an `enum` array of strings.  Any
//! other shape is a structural error.

use vstd::prelude::*;
use crate::assoc::assoc_get;
use crate::error::{Error, ErrorV};
use crate::json::{value_to_array, value_to_map, try_array_entry, try_string_entry, JsonValue, JsonV};

verus! {

/// An enum-constrained reference: the referenced representation type and
/// the literal values allowed.
#[derive(Debug, PartialEq)]
pub struct AnyOf {
    pub ref_name: String,
    pub enums: Vec<String>,
}

/// The mathematical shape of an `AnyOf`.
#[verifier::ext_equal]
pub struct AnyOfV {
    pub ref_name: Seq<char>,
    pub enums: Seq<Seq<char>>,
}

impl View for AnyOf {
    type V = AnyOfV;

    open spec fn view(&self) -> AnyOfV {
        AnyOfV { ref_name: self.ref_name@, enums: self.enums.deep_view() }
    }
}

/// The strings of an `enum` array, or a structural error when any member is
/// not a string.
pub open spec fn spec_enum_strings(items: Seq<JsonV>) -> Result<Seq<Seq<char>>, ErrorV> {
    if forall|j: int| 0 <= j < items.len() ==> (#[trigger] items[j]) is Str {
        Ok(Seq::new(items.len(), |j: int| items[j]->Str_0))
    } else {
        Err(ErrorV::MalformedAnyOf)
    }
}

/// What reading an `anyOf` pair from `v` yields: the `$ref` of the first
/// member and the `enum` strings of the second, or the error naming the
/// first shape fault found.
pub open spec fn spec_any_of(v: JsonV) -> Result<AnyOfV, ErrorV> {
    match v {
        JsonV::Array(items) => {
            if items.len() != 2 {
                Err(ErrorV::MalformedAnyOf)
            } else {
                match items[0] {
                    JsonV::Object(m0) => match assoc_get(m0, "$ref"@) {
                        Some(rv) => match rv {
                            JsonV::Str(r) => match items[1] {
                                JsonV::Object(m1) => match assoc_get(m1, "enum"@) {
                                    Some(ev) => match ev {
                                        JsonV::Array(evs) => match spec_enum_strings(evs) {
                                            Ok(enums) => Ok(AnyOfV { ref_name: r, enums }),
                                            Err(e) => Err(e),
                                        },
                                        _ => Err(ErrorV::MissingAnyOfEnum),
                                    },
                                    None => Err(ErrorV::MissingAnyOfEnum),
                                },
                                _ => Err(ErrorV::MalformedAnyOf),
                            },
                            _ => Err(ErrorV::MissingAnyOfRef),
                        },
                        None => Err(ErrorV::MissingAnyOfRef),
                    },
                    _ => Err(ErrorV::MalformedAnyOf),
                }
            }
        },
        _ => Err(ErrorV::StringExpected),
    }
}

impl AnyOf {
    /// Reads an `anyOf` pair.  Exactly the well-shaped pairs succeed; each
    /// malformed shape yields its structural error.
    #[verifier::loop_isolation(false)]
    pub fn try_from(value: &JsonValue) -> (r: Result<AnyOf, Error>)
        ensures
            match r {
                Ok(a) => spec_any_of(value@) == Ok::<AnyOfV, ErrorV>(a@),
                Err(e) => spec_any_of(value@) == Err::<AnyOfV, ErrorV>(e@),
            },
    {
        let any_of_array = match value_to_array(value) {
            Ok(a) => a,
            Err(e) => {
                return Err(e);
            },
        };
        if any_of_array.len() != 2 {
            return Err(Error::MalformedAnyOf);
        }
        assert(any_of_array.deep_view()[0] == any_of_array@[0]@);
        assert(any_of_array.deep_view()[1] == any_of_array@[1]@);
        let ref_map = match value_to_map(&any_of_array[0]) {
            Ok(m) => m,
            Err(_) => {
                return Err(Error::MalformedAnyOf);
            },
        };
        let ref_name = match try_string_entry("$ref", ref_map) {
            Ok(s) => s.clone(),
            Err(_) => {
                return Err(Error::MissingAnyOfRef);
            },
        };
        let enum_map = match value_to_map(&any_of_array[1]) {
            Ok(m) => m,
            Err(_) => {
                return Err(Error::MalformedAnyOf);
            },
        };
        let enum_array = match try_array_entry("enum", enum_map) {
            Ok(a) => a,
            Err(_) => {
                return Err(Error::MissingAnyOfEnum);
            },
        };
        let ghost evs = enum_array.deep_view();
        let mut enums: Vec<String> = Vec::new();
        let n = enum_array.len();
        let mut i: usize = 0;
        while i < n
            invariant
                n == enum_array@.len(),
                evs == enum_array.deep_view(),
                evs.len() == n,
                0 <= i <= n,
                enums.deep_view().len() == i,
                forall|j: int| 0 <= j < i ==> (#[trigger] evs[j]) is Str,
                forall|j: int| 0 <= j < i ==> enums.deep_view()[j] == evs[j]->Str_0,
            decreases n - i,
        {
            assert(evs[i as int] == enum_array@[i as int]@);
            match crate::json::value_to_string(&enum_array[i]) {
                Ok(s) => {
                    let ghost prev = enums.deep_view();
                    enums.push(s.clone());
                    proof {
                        assert(enums.deep_view() =~= prev.push(s@));
                    }
                },
                Err(_) => {
                    assert(!(evs[i as int] is Str));
                    assert(!(forall|j: int| 0 <= j < evs.len() ==> (#[trigger] evs[j]) is Str))
                        by {
                        assert(0 <= i < evs.len() && !(evs[i as int] is Str));
                    }
                    assert(spec_enum_strings(evs) == Err::<Seq<Seq<char>>, ErrorV>(
                        ErrorV::MalformedAnyOf,
                    ));
                    return Err(Error::MalformedAnyOf);
                },
            }
            i += 1;
        }
        let r = AnyOf { ref_name, enums };
        proof {
            assert(spec_enum_strings(evs) == Ok::<Seq<Seq<char>>, ErrorV>(r@.enums)) by {
                assert(forall|j: int| 0 <= j < evs.len() ==> (#[trigger] evs[j]) is Str);
                assert(enums.deep_view() =~= Seq::new(evs.len(), |j: int| evs[j]->Str_0));
            }
        }
        Ok(r)
    }
}

} // verus!
