//! The document model the pipeline works over: a tree of nulls, booleans,
//! numbers, strings, ordered-key maps and arrays, as produced by a generic
//! JSON reader.  Numbers keep their decimal spelling; the pipeline never
//! reads them.

use vstd::prelude::*;
use crate::assoc::{
    assoc_get, assoc_has, lemma_assoc_first_index_absent, lemma_assoc_first_index_found,
};
use crate::error::{Error, ErrorV};
use crate::text::str_eq;

verus! {

/// One node of a parsed document.
pub enum JsonValue {
    Null,
    Bool(bool),
    /// A number, kept as its decimal spelling.
    Number(String),
    Str(String),
    Array(Vec<JsonValue>),
    Object(JsonMap),
}

/// An ordered mapping from member name to value.
pub struct JsonMap {
    pub entries: Vec<(String, JsonValue)>,
}

/// The mathematical shape of a document node.
pub enum JsonV {
    Null,
    Bool(bool),
    Number(Seq<char>),
    Str(Seq<char>),
    Array(Seq<JsonV>),
    Object(Seq<(Seq<char>, JsonV)>),
}

/// The shape of one node.
pub open spec fn jview(v: JsonValue) -> JsonV
    decreases v,
{
    match v {
        JsonValue::Null => JsonV::Null,
        JsonValue::Bool(b) => JsonV::Bool(b),
        JsonValue::Number(s) => JsonV::Number(s@),
        JsonValue::Str(s) => JsonV::Str(s@),
        JsonValue::Array(items) => JsonV::Array(jview_elems(items@)),
        JsonValue::Object(m) => JsonV::Object(jview_entries(m.entries@)),
    }
}

/// The shapes of the elements of an array, in order.
pub open spec fn jview_elems(s: Seq<JsonValue>) -> Seq<JsonV>
    decreases s,
{
    if s.len() == 0 {
        Seq::empty()
    } else {
        jview_elems(s.drop_last()).push(jview(s.last()))
    }
}

/// The shapes of the members of a map, in order.
pub open spec fn jview_entries(s: Seq<(String, JsonValue)>) -> Seq<(Seq<char>, JsonV)>
    decreases s,
{
    if s.len() == 0 {
        Seq::empty()
    } else {
        jview_entries(s.drop_last()).push((s.last().0@, jview(s.last().1)))
    }
}

pub proof fn lemma_jview_elems(s: Seq<JsonValue>)
    ensures
        jview_elems(s).len() == s.len(),
        forall|i: int| 0 <= i < s.len() ==> jview_elems(s)[i] == jview(#[trigger] s[i]),
    decreases s,
{
    if s.len() > 0 {
        lemma_jview_elems(s.drop_last());
        assert forall|i: int| 0 <= i < s.len() implies jview_elems(s)[i] == jview(
            #[trigger] s[i],
        ) by {
            if i < s.len() - 1 {
                assert(s.drop_last()[i] == s[i]);
                assert(jview_elems(s)[i] == jview_elems(s.drop_last())[i]);
            } else {
                assert(s[i] == s.last());
            }
        }
    }
}

pub proof fn lemma_jview_entries(s: Seq<(String, JsonValue)>)
    ensures
        jview_entries(s).len() == s.len(),
        forall|i: int| 0 <= i < s.len() ==> jview_entries(s)[i] == ((#[trigger] s[i]).0@, jview(
            s[i].1,
        )),
    decreases s,
{
    if s.len() > 0 {
        lemma_jview_entries(s.drop_last());
        assert forall|i: int| 0 <= i < s.len() implies jview_entries(s)[i] == ((
        #[trigger] s[i]).0@, jview(s[i].1)) by {
            if i < s.len() - 1 {
                assert(s.drop_last()[i] == s[i]);
                assert(jview_entries(s)[i] == jview_entries(s.drop_last())[i]);
            } else {
                assert(s[i] == s.last());
            }
        }
    }
}

impl View for JsonValue {
    type V = JsonV;

    open spec fn view(&self) -> JsonV {
        jview(*self)
    }
}

impl DeepView for JsonValue {
    type V = JsonV;

    open spec fn deep_view(&self) -> JsonV {
        self.view()
    }
}

impl View for JsonMap {
    type V = Seq<(Seq<char>, JsonV)>;

    open spec fn view(&self) -> Seq<(Seq<char>, JsonV)> {
        jview_entries(self.entries@)
    }
}

impl JsonMap {
    /// An empty map.
    pub fn new() -> (r: JsonMap)
        ensures
            r@ == Seq::<(Seq<char>, JsonV)>::empty(),
    {
        let r = JsonMap { entries: Vec::new() };
        r
    }

    /// The number of members.
    pub fn len(&self) -> (r: usize)
        ensures
            r == self@.len(),
    {
        proof {
            lemma_jview_entries(self.entries@);
        }
        self.entries.len()
    }

    /// The member at position `i`.
    pub fn entry_at(&self, i: usize) -> (r: &(String, JsonValue))
        requires
            i < self@.len(),
        ensures
            r.0@ == self@[i as int].0,
            r.1@ == self@[i as int].1,
    {
        proof {
            lemma_jview_entries(self.entries@);
        }
        &self.entries[i]
    }

    /// Appends a member.  Callers build maps in document order.
    pub fn push(&mut self, key: String, val: JsonValue)
        ensures
            final(self)@ == old(self)@.push((key@, val@)),
    {
        self.entries.push((key, val));
        proof {
            assert(final(self).entries@.drop_last() =~= old(self).entries@);
            assert(final(self)@ =~= old(self)@.push((key@, val@)));
        }
    }

    /// The value of the first member named `key`, if any.
    pub fn get(&self, key: &str) -> (r: Option<&JsonValue>)
        ensures
            match r {
                Some(v) => assoc_get(self@, key@) == Some(v@),
                None => !assoc_has(self@, key@),
            },
    {
        proof {
            lemma_jview_entries(self.entries@);
        }
        let n = self.entries.len();
        let mut i: usize = 0;
        while i < n
            invariant
                n == self@.len(),
                n == self.entries@.len(),
                0 <= i <= n,
                forall|j: int| 0 <= j < i ==> (#[trigger] self@[j]).0 != key@,
            decreases n - i,
        {
            proof {
                lemma_jview_entries(self.entries@);
            }
            assert(self@[i as int].0 == self.entries@[i as int].0@);
            if str_eq(self.entries[i].0.as_str(), key) {
                proof {
                    lemma_assoc_first_index_found(self@, key@, i as int);
                }
                return Some(&self.entries[i].1);
            }
            i += 1;
        }
        proof {
            lemma_assoc_first_index_absent(self@, key@);
        }
        None
    }
}

/// True when the node is a string.
pub fn is_string(value: &JsonValue) -> (r: bool)
    ensures
        r == (value@ is Str),
{
    match value {
        JsonValue::Str(_) => true,
        _ => false,
    }
}

/// True when the node is an ordered-key map.
pub fn is_map(value: &JsonValue) -> (r: bool)
    ensures
        r == (value@ is Object),
{
    match value {
        JsonValue::Object(_) => true,
        _ => false,
    }
}

/// True when the node is an array.
pub fn is_array(value: &JsonValue) -> (r: bool)
    ensures
        r == (value@ is Array),
{
    match value {
        JsonValue::Array(_) => true,
        _ => false,
    }
}

/// The string held by the node, or a structural error.
pub fn value_to_string(value: &JsonValue) -> (r: Result<&String, Error>)
    ensures
        match r {
            Ok(s) => value@ == JsonV::Str(s@),
            Err(e) => !(value@ is Str) && e@ == ErrorV::StringExpected,
        },
{
    match value {
        JsonValue::Str(s) => Ok(s),
        _ => Err(Error::StringExpected),
    }
}

/// The map held by the node, or a structural error.
pub fn value_to_map(value: &JsonValue) -> (r: Result<&JsonMap, Error>)
    ensures
        match r {
            Ok(m) => value@ == JsonV::Object(m@),
            Err(e) => !(value@ is Object) && e@ == ErrorV::StringExpected,
        },
{
    match value {
        JsonValue::Object(m) => Ok(m),
        _ => Err(Error::StringExpected),
    }
}

/// The array held by the node, or a structural error.
pub fn value_to_array(value: &JsonValue) -> (r: Result<&Vec<JsonValue>, Error>)
    ensures
        match r {
            Ok(a) => value@ == JsonV::Array(a.deep_view()),
            Err(e) => !(value@ is Array) && e@ == ErrorV::StringExpected,
        },
{
    match value {
        JsonValue::Array(a) => {
            proof {
                lemma_jview_elems(a@);
                assert(a.deep_view() =~= jview_elems(a@));
            }
            Ok(a)
        },
        _ => Err(Error::StringExpected),
    }
}

/// The member named `key`, or an attribute-not-found error naming it.
pub fn try_get_attr<'a>(key: &str, map: &'a JsonMap) -> (r: Result<&'a JsonValue, Error>)
    ensures
        match r {
            Ok(v) => assoc_get(map@, key@) == Some(v@),
            Err(e) => !assoc_has(map@, key@) && e@ == ErrorV::AttributeNotFound(key@),
        },
{
    match map.get(key) {
        Some(v) => Ok(v),
        None => Err(Error::AttributeNotFound(key.to_owned())),
    }
}

/// The string member named `key`, or the fitting error.
pub fn try_string_entry<'a>(key: &str, map: &'a JsonMap) -> (r: Result<&'a String, Error>)
    ensures
        match r {
            Ok(s) => assoc_get(map@, key@) == Some(JsonV::Str(s@)),
            Err(e) => match e@ {
                ErrorV::AttributeNotFound(k) => k == key@ && !assoc_has(map@, key@),
                ErrorV::StringExpected => assoc_get(map@, key@) matches Some(v) && !(v is Str),
                _ => false,
            },
        },
{
    value_to_string(try_get_attr(key, map)?)
}

/// The map member named `key`, or the fitting error.
pub fn try_map_entry<'a>(key: &str, map: &'a JsonMap) -> (r: Result<&'a JsonMap, Error>)
    ensures
        match r {
            Ok(m) => assoc_get(map@, key@) == Some(JsonV::Object(m@)),
            Err(e) => match e@ {
                ErrorV::AttributeNotFound(k) => k == key@ && !assoc_has(map@, key@),
                ErrorV::StringExpected => assoc_get(map@, key@) matches Some(v) && !(v is Object),
                _ => false,
            },
        },
{
    value_to_map(try_get_attr(key, map)?)
}

/// The array member named `key`, or the fitting error.
pub fn try_array_entry<'a>(key: &str, map: &'a JsonMap) -> (r: Result<&'a Vec<JsonValue>, Error>)
    ensures
        match r {
            Ok(a) => assoc_get(map@, key@) == Some(JsonV::Array(a.deep_view())),
            Err(e) => match e@ {
                ErrorV::AttributeNotFound(k) => k == key@ && !assoc_has(map@, key@),
                ErrorV::StringExpected => assoc_get(map@, key@) matches Some(v) && !(v is Array),
                _ => false,
            },
        },
{
    value_to_array(try_get_attr(key, map)?)
}

} // verus!
