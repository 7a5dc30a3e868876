//! A fully parsed, named schema definition destined to become one generated
//! type.  A node is either a wrapper over one referenced type (`type_ref`)
//! or a record of properties (`props`); never both.

use vstd::prelude::*;
use crate::error::Error;
use crate::json::JsonMap;
use crate::property::{Property, PropertyV};
use crate::string_type::{spec_str_attr, spec_string_type, StringType, StringTypeV};

verus! {

/// One named schema object at its namespace path.
#[derive(Debug, PartialEq)]
pub struct SchemaObject {
    pub ns: String,
    pub name: String,
    pub id: Option<String>,
    pub description: Option<String>,
    pub _type: Option<String>,
    pub type_ref: Option<String>,
    pub props: Option<Vec<(String, Property)>>,
    pub string_type: Option<StringType>,
}

/// The mathematical shape of a `SchemaObject`.
#[verifier::ext_equal]
pub struct SchemaObjectV {
    pub ns: Seq<char>,
    pub name: Seq<char>,
    pub id: Option<Seq<char>>,
    pub description: Option<Seq<char>>,
    pub _type: Option<Seq<char>>,
    pub type_ref: Option<Seq<char>>,
    pub props: Option<Seq<(Seq<char>, PropertyV)>>,
    pub string_type: Option<StringTypeV>,
}

/// The shapes of an ordered property list.
pub open spec fn props_view(s: Seq<(String, Property)>) -> Seq<(Seq<char>, PropertyV)> {
    Seq::new(s.len(), |i: int| (s[i].0@, s[i].1@))
}

impl View for SchemaObject {
    type V = SchemaObjectV;

    open spec fn view(&self) -> SchemaObjectV {
        SchemaObjectV {
            ns: self.ns@,
            name: self.name@,
            id: match &self.id {
                Some(s) => Some(s@),
                None => None,
            },
            description: match &self.description {
                Some(s) => Some(s@),
                None => None,
            },
            _type: match &self._type {
                Some(s) => Some(s@),
                None => None,
            },
            type_ref: match &self.type_ref {
                Some(s) => Some(s@),
                None => None,
            },
            props: match &self.props {
                Some(p) => Some(props_view(p@)),
                None => None,
            },
            string_type: match &self.string_type {
                Some(st) => Some(st@),
                None => None,
            },
        }
    }
}

fn clone_opt_string(s: &Option<String>) -> (r: Option<String>)
    ensures
        match (s, &r) {
            (Some(a), Some(b)) => a@ == b@,
            (None, None) => true,
            _ => false,
        },
{
    match s {
        Some(a) => Some(a.clone()),
        None => None,
    }
}

impl Clone for Property {
    fn clone(&self) -> (r: Self)
        ensures
            r@ == self@,
    {
        let r = Property {
            optional: self.optional,
            array: self.array,
            name: self.name.clone(),
            title: match &self.title {
                Some(s) => Some(s.clone()),
                None => None,
            },
            description: match &self.description {
                Some(s) => Some(s.clone()),
                None => None,
            },
            type_ref: self.type_ref.clone(),
            enums: match &self.enums {
                Some(v) => Some(crate::text::clone_string_vec(v)),
                None => None,
            },
        };
        proof {
            assert(r@ =~= self@);
        }
        r
    }
}

impl Clone for SchemaObject {
    fn clone(&self) -> (r: Self)
        ensures
            r@ == self@,
    {
        let props: Option<Vec<(String, Property)>> = match &self.props {
            Some(v) => {
                let mut out: Vec<(String, Property)> = Vec::new();
                let n = v.len();
                let mut i: usize = 0;
                while i < n
                    invariant
                        n == v@.len(),
                        0 <= i <= n,
                        out@.len() == i,
                        forall|j: int| 0 <= j < i ==> (#[trigger] out@[j]).0@ == v@[j].0@
                            && out@[j].1@ == v@[j].1@,
                    decreases n - i,
                {
                    let pair = &v[i];
                    out.push((pair.0.clone(), pair.1.clone()));
                    i += 1;
                }
                Some(out)
            },
            None => None,
        };
        let r = SchemaObject {
            ns: self.ns.clone(),
            name: self.name.clone(),
            id: clone_opt_string(&self.id),
            description: clone_opt_string(&self.description),
            _type: clone_opt_string(&self._type),
            type_ref: clone_opt_string(&self.type_ref),
            props,
            string_type: match &self.string_type {
                Some(st) => Some(st.clone()),
                None => None,
            },
        };
        proof {
            assert(r@ =~= self@) by {
                match (&self.props, &r.props) {
                    (Some(a), Some(b)) => {
                        assert(props_view(b@) =~= props_view(a@));
                    },
                    _ => {},
                }
            }
        }
        r
    }
}

/// The object read from a definition map at `ns`/`name`, before its
/// properties are parsed: its identity, wrapper reference and refinement
/// members.
pub open spec fn spec_schema_object(
    ns: Seq<char>,
    name: Seq<char>,
    m: Seq<(Seq<char>, crate::json::JsonV)>,
) -> SchemaObjectV {
    SchemaObjectV {
        ns: ns,
        name: name,
        id: spec_str_attr(m, "$id"@),
        description: spec_str_attr(m, "description"@),
        _type: spec_str_attr(m, "type"@),
        type_ref: spec_str_attr(m, "$ref"@),
        props: None,
        string_type: if spec_string_type(m) == (StringTypeV {
            format: None,
            pattern: None,
            content_encoding: None,
        }) {
            None
        } else {
            Some(spec_string_type(m))
        },
    }
}

fn str_attr_owned(key: &str, map: &JsonMap) -> (r: Option<String>)
    ensures
        match r {
            Some(s) => spec_str_attr(map@, key@) == Some(s@),
            None => spec_str_attr(map@, key@) is None,
        },
{
    match crate::json::try_string_entry(key, map) {
        Ok(s) => Some(s.clone()),
        Err(_) => None,
    }
}

impl SchemaObject {
    /// Reads the scalar members of a definition map.  Properties are filled
    /// in afterwards by the tree builder.
    pub fn parse(ns: &str, name: &str, map: &JsonMap) -> (r: Result<Self, Error>)
        ensures
            r matches Ok(obj) && obj@ == spec_schema_object(ns@, name@, map@),
    {
        let id = str_attr_owned("$id", map);
        let description = str_attr_owned("description", map);
        let _type = str_attr_owned("type", map);
        let type_ref = str_attr_owned("$ref", map);
        let string_type = StringType::parse(map)?;
        let r = Self {
            ns: ns.to_owned(),
            name: name.to_owned(),
            id,
            description,
            _type,
            type_ref,
            props: None,
            string_type,
        };
        proof {
            assert(r@ =~= spec_schema_object(ns@, name@, map@));
        }
        Ok(r)
    }

    /// True when some property is optional.
    pub fn has_options(&self) -> (r: bool)
        ensures
            r == spec_has_options(self@),
    {
        match &self.props {
            None => false,
            Some(props) => {
                let n = props.len();
                let mut i: usize = 0;
                while i < n
                    invariant
                        n == props@.len(),
                        self@.props == Some(props_view(props@)),
                        0 <= i <= n,
                        forall|j: int| 0 <= j < i ==> !(#[trigger] props_view(props@)[j]).1.optional,
                    decreases n - i,
                {
                    if props[i].1.optional {
                        assert(props_view(props@)[i as int].1.optional);
                        return true;
                    }
                    i += 1;
                }
                false
            },
        }
    }
}

/// True when the object holds a property marked optional.
pub open spec fn spec_has_options(obj: SchemaObjectV) -> bool {
    match obj.props {
        None => false,
        Some(props) => exists|j: int| 0 <= j < props.len() && (#[trigger] props[j]).1.optional,
    }
}

} // verus!
