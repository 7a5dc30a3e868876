//! String-refinement metadata of a schema object: `format`, `pattern` and
//! `contentEncoding`, when present as string members.

use vstd::prelude::*;
use crate::assoc::assoc_get;
use crate::error::Error;
use crate::json::{JsonMap, JsonV};

verus! {

/// A constraint on a string datatype.
#[derive(Debug, PartialEq)]
pub struct StringType {
    pub format: Option<String>,
    pub pattern: Option<String>,
    pub content_encoding: Option<String>,
}

/// The mathematical shape of a `StringType`.
#[verifier::ext_equal]
pub struct StringTypeV {
    pub format: Option<Seq<char>>,
    pub pattern: Option<Seq<char>>,
    pub content_encoding: Option<Seq<char>>,
}

impl View for StringType {
    type V = StringTypeV;

    open spec fn view(&self) -> StringTypeV {
        StringTypeV {
            format: match &self.format {
                Some(s) => Some(s@),
                None => None,
            },
            pattern: match &self.pattern {
                Some(s) => Some(s@),
                None => None,
            },
            content_encoding: match &self.content_encoding {
                Some(s) => Some(s@),
                None => None,
            },
        }
    }
}

impl Clone for StringType {
    fn clone(&self) -> (r: Self)
        ensures
            r@ == self@,
    {
        StringType {
            format: match &self.format {
                Some(s) => Some(s.clone()),
                None => None,
            },
            pattern: match &self.pattern {
                Some(s) => Some(s.clone()),
                None => None,
            },
            content_encoding: match &self.content_encoding {
                Some(s) => Some(s.clone()),
                None => None,
            },
        }
    }
}

/// The string member of `m` named `key`, or nothing when the member is
/// absent or not a string.
pub open spec fn spec_str_attr(m: Seq<(Seq<char>, JsonV)>, key: Seq<char>) -> Option<Seq<char>> {
    match assoc_get(m, key) {
        Some(v) => match v {
            JsonV::Str(s) => Some(s),
            _ => None,
        },
        None => None,
    }
}

/// The refinement read from a map's members.
pub open spec fn spec_string_type(m: Seq<(Seq<char>, JsonV)>) -> StringTypeV {
    StringTypeV {
        format: spec_str_attr(m, "format"@),
        pattern: spec_str_attr(m, "pattern"@),
        content_encoding: spec_str_attr(m, "contentEncoding"@),
    }
}

fn str_attr(key: &str, map: &JsonMap) -> (r: Option<String>)
    ensures
        match r {
            Some(s) => spec_str_attr(map@, key@) == Some(s@),
            None => spec_str_attr(map@, key@) is None,
        },
{
    match crate::json::try_string_entry(key, map) {
        Ok(s) => Some(s.clone()),
        Err(_) => None,
    }
}

impl StringType {
    /// True when no refinement member was present.
    pub fn is_empty(&self) -> (r: bool)
        ensures
            r == (self@.format is None && self@.pattern is None && self@.content_encoding
                is None),
    {
        self.format.is_none() && self.pattern.is_none() && self.content_encoding.is_none()
    }

    /// Reads the refinement members of `map`.
    pub fn from_map(map: &JsonMap) -> (r: Self)
        ensures
            r@ == spec_string_type(map@),
    {
        let format = str_attr("format", map);
        let pattern = str_attr("pattern", map);
        let content_encoding = str_attr("contentEncoding", map);
        let r = Self { format, pattern, content_encoding };
        proof {
            assert(r@ =~= spec_string_type(map@));
        }
        r
    }

    /// Reads the refinement members of `map`; the refinement is kept
    /// exactly when at least one member was present.
    pub fn parse(map: &JsonMap) -> (r: Result<Option<Self>, Error>)
        ensures
            r matches Ok(opt) && (match opt {
                Some(st) => st@ == spec_string_type(map@) && !(spec_string_type(map@)
                    == (StringTypeV { format: None, pattern: None, content_encoding: None })),
                None => spec_string_type(map@) == (StringTypeV {
                    format: None,
                    pattern: None,
                    content_encoding: None,
                }),
            }),
    {
        let result = Self::from_map(map);
        match result.is_empty() {
            true => {
                proof {
                    assert(spec_string_type(map@) =~= (StringTypeV {
                        format: None,
                        pattern: None,
                        content_encoding: None,
                    }));
                }
                Ok(None)
            },
            false => Ok(Some(result)),
        }
    }
}

} // verus!
