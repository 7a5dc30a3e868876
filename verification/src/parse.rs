//! The schema tree builder: a single pass over the document's
//! `definitions`, decomposing each entry into namespaced object nodes,
//! registering identified objects, and synthesizing entries for anonymous
//! nested and array-item objects.

use vstd::prelude::*;
use crate::any_of::{spec_any_of, AnyOf, AnyOfV};
use crate::assoc::{assoc_first_index, assoc_get, assoc_set, lemma_assoc_first_index_range};
use crate::casing::{pascal_of, snake_of, to_pascal, to_snake};
use crate::data_type::{data_types_spec, is_datatype};
use crate::error::{Error, ErrorV};
use crate::json::{
    try_array_entry, try_map_entry, try_string_entry, value_to_map, value_to_string, JsonMap,
    JsonV, JsonValue,
};
use crate::names::{spec_is_namespace, spec_name_parts, spec_unplural, NamespaceEntry, UnPlural};
use crate::property::{Property, PropertyV};
use crate::resolver::Resolver;
use crate::schema::Schema;
use crate::schema_object::{spec_schema_object, SchemaObject, SchemaObjectV};
use crate::schema_tree::{SchemaTree, SchemaTreeV};
use crate::schema_type::{SchemaType, SchemaTypeV};
use crate::string_type::spec_str_attr;
use crate::text::{split_char, split_on_char, starts_with, str_eq};
use crate::tree_entry::TreeEntryV;
use crate::type_ref::{TypeRef, TypeRefV};

verus! {

/// The registry contents, as the resolver's view.
pub type RegV = Seq<(Seq<char>, SchemaTypeV)>;

/// The nesting depth of a document node: how many objects and arrays lie
/// on the longest path below it.
pub open spec fn jheight(v: JsonV) -> nat
    decreases v,
{
    match v {
        JsonV::Array(items) => 1 + jheight_seq(items),
        JsonV::Object(m) => 1 + jheight_entries(m),
        _ => 0,
    }
}

pub open spec fn jheight_seq(s: Seq<JsonV>) -> nat
    decreases s,
{
    if s.len() == 0 {
        0
    } else {
        let a = jheight_seq(s.drop_last());
        let b = jheight(s.last());
        if a > b {
            a
        } else {
            b
        }
    }
}

pub open spec fn jheight_entries(s: Seq<(Seq<char>, JsonV)>) -> nat
    decreases s,
{
    if s.len() == 0 {
        0
    } else {
        let a = jheight_entries(s.drop_last());
        let b = jheight(s.last().1);
        if a > b {
            a
        } else {
            b
        }
    }
}

pub proof fn lemma_jheight_entry(s: Seq<(Seq<char>, JsonV)>, i: int)
    requires
        0 <= i < s.len(),
    ensures
        jheight(s[i].1) <= jheight_entries(s),
    decreases s,
{
    if i == s.len() - 1 {
        assert(s[i] == s.last());
    } else {
        lemma_jheight_entry(s.drop_last(), i);
        assert(s.drop_last()[i] == s[i]);
    }
}

/// A member of a map is lower than the map itself.
pub proof fn lemma_jheight_member(m: Seq<(Seq<char>, JsonV)>, key: Seq<char>)
    ensures
        assoc_get(m, key) matches Some(v) ==> jheight(v) <= jheight_entries(m),
{
    lemma_assoc_first_index_range(m, key);
    let i = assoc_first_index(m, key);
    if i >= 0 {
        lemma_jheight_entry(m, i);
    }
}

/// The strings of an array of strings, or the wrong-kind error when any
/// member is not a string.
pub open spec fn spec_string_items(items: Seq<JsonV>) -> Result<Seq<Seq<char>>, ErrorV> {
    if forall|j: int| 0 <= j < items.len() ==> (#[trigger] items[j]) is Str {
        Ok(Seq::new(items.len(), |j: int| items[j]->Str_0))
    } else {
        Err(ErrorV::StringExpected)
    }
}

/// What reading the `required` member yields: its strings when it is an
/// array of strings, the empty list when it is absent or not an array, and
/// an error when it is an array holding a non-string.
pub open spec fn spec_get_required(m: Seq<(Seq<char>, JsonV)>) -> Result<Seq<Seq<char>>, ErrorV> {
    match assoc_get(m, "required"@) {
        Some(v) => match v {
            JsonV::Array(items) => spec_string_items(items),
            _ => Ok(Seq::<Seq<char>>::empty()),
        },
        None => Ok(Seq::<Seq<char>>::empty()),
    }
}

/// The names of the properties that the object declares as required.
pub fn get_required(obj_map: &JsonMap) -> (r: Result<Vec<String>, Error>)
    ensures
        match r {
            Ok(v) => spec_get_required(obj_map@) == Ok::<Seq<Seq<char>>, ErrorV>(v.deep_view()),
            Err(e) => spec_get_required(obj_map@) == Err::<Seq<Seq<char>>, ErrorV>(e@),
        },
{
    let mut result: Vec<String> = Vec::new();
    let required = match try_array_entry("required", obj_map) {
        Ok(a) => a,
        Err(_) => {
            proof {
                assert(result.deep_view() =~= Seq::<Seq<char>>::empty());
            }
            return Ok(result);
        },
    };
    let ghost items = required.deep_view();
    let n = required.len();
    let mut i: usize = 0;
    #[verifier::loop_isolation(false)]
    while i < n
        invariant
            n == required@.len(),
            items.len() == n,
            0 <= i <= n,
            result.deep_view().len() == i,
            forall|j: int| 0 <= j < i ==> (#[trigger] items[j]) is Str,
            forall|j: int| 0 <= j < i ==> result.deep_view()[j] == items[j]->Str_0,
        decreases n - i,
    {
        assert(items[i as int] == required@[i as int]@);
        match value_to_string(&required[i]) {
            Ok(s) => {
                let ghost prev = result.deep_view();
                result.push(s.clone());
                proof {
                    assert(result.deep_view() =~= prev.push(s@));
                }
            },
            Err(e) => {
                assert(!(items[i as int] is Str));
                let ghost wi = i as int;
                assert(!(forall|j: int| 0 <= j < items.len() ==> (#[trigger] items[j]) is Str))
                    by {
                    assert(0 <= wi < items.len() && !(items[wi] is Str));
                }
                return Err(e);
            },
        }
        i += 1;
    }
    proof {
        assert(result.deep_view() =~= Seq::new(items.len(), |j: int| items[j]->Str_0));
    }
    Ok(result)
}

/// What reading the enum-constrained-reference idiom yields: the `anyOf`
/// member when present, else the legacy `allOf` member, read as a
/// reference/enum pair; nothing when neither member exists.
pub open spec fn spec_get_any_of(m: Seq<(Seq<char>, JsonV)>) -> Result<Option<AnyOfV>, ErrorV> {
    match assoc_get(m, "anyOf"@) {
        Some(v) => match spec_any_of(v) {
            Ok(a) => Ok(Some(a)),
            Err(e) => Err(e),
        },
        None => match assoc_get(m, "allOf"@) {
            Some(v) => match spec_any_of(v) {
                Ok(a) => Ok(Some(a)),
                Err(e) => Err(e),
            },
            None => Ok(None),
        },
    }
}

/// Reads the `anyOf` member, or the legacy `allOf` member, of an object.
pub fn get_any_of(obj_map: &JsonMap) -> (r: Result<Option<AnyOf>, Error>)
    ensures
        match r {
            Ok(opt) => match opt {
                Some(a) => spec_get_any_of(obj_map@) == Ok::<Option<AnyOfV>, ErrorV>(Some(a@)),
                None => spec_get_any_of(obj_map@) == Ok::<Option<AnyOfV>, ErrorV>(None),
            },
            Err(e) => spec_get_any_of(obj_map@) == Err::<Option<AnyOfV>, ErrorV>(e@),
        },
{
    let mut any_of_val = obj_map.get("anyOf");
    if any_of_val.is_none() {
        any_of_val = obj_map.get("allOf");
    }
    match any_of_val {
        Some(any_of) => match AnyOf::try_from(any_of) {
            Ok(a) => Ok(Some(a)),
            Err(e) => Err(e),
        },
        None => Ok(None),
    }
}

/// The fixed leading part of a document `$id`.
pub open spec fn spec_version_prefix() -> Seq<char> {
    "http://csrc.nist.gov/ns/oscal/1.0/"@
}

/// The fixed trailing part of a document `$id`.
pub open spec fn spec_version_suffix() -> Seq<char> {
    "/oscal-complete-schema.json"@
}

/// True when every character of `s` is a decimal digit and there is at
/// least one.
pub open spec fn spec_all_digits(s: Seq<char>) -> bool {
    s.len() > 0 && forall|j: int| 0 <= j < s.len() ==> '0' <= #[trigger] s[j] <= '9'
}

/// True when `v` is a semantic version as the `$id` pattern demands: a
/// major part of one or two digits not starting with zero, then a dot,
/// then digits, then a dot, then digits.
pub open spec fn spec_is_version(v: Seq<char>) -> bool {
    let ps = split_char(v, '.');
    ps.len() == 3 && ps[0].len() >= 1 && ps[0].len() <= 2 && '1' <= ps[0][0] <= '9' && (ps[0].len()
        == 2 ==> '0' <= ps[0][1] <= '9') && spec_all_digits(ps[1]) && spec_all_digits(ps[2])
}

/// What extracting the version from a document `$id` yields: the middle of
/// an id of the fixed URL shape, or a version-parse error.
pub open spec fn spec_parse_version(id: Seq<char>) -> Result<Seq<char>, ErrorV> {
    let p = spec_version_prefix();
    let s = spec_version_suffix();
    if id.len() >= p.len() + s.len() && id.take(p.len() as int) == p && id.skip(
        id.len() - s.len(),
    ) == s && spec_is_version(id.subrange(p.len() as int, id.len() - s.len())) {
        Ok(id.subrange(p.len() as int, id.len() - s.len()))
    } else {
        Err(ErrorV::VersionParse)
    }
}

fn all_digits(s: &str) -> (r: bool)
    ensures
        r == spec_all_digits(s@),
{
    let n = s.unicode_len();
    if n == 0 {
        return false;
    }
    let mut i: usize = 0;
    #[verifier::loop_isolation(false)]
    while i < n
        invariant
            n == s@.len(),
            0 <= i <= n,
            forall|j: int| 0 <= j < i ==> '0' <= #[trigger] s@[j] <= '9',
        decreases n - i,
    {
        let c = s.get_char(i);
        if !(c >= '0' && c <= '9') {
            let ghost wi = i as int;
            assert(!spec_all_digits(s@)) by {
                assert(!('0' <= s@[wi] <= '9'));
            }
            return false;
        }
        i += 1;
    }
    true
}

/// Extracts the semantic version from the document `$id`, which must have
/// the fixed URL shape around it.
pub fn parse_version_from_id(id: &str) -> (r: Result<String, Error>)
    ensures
        match r {
            Ok(v) => spec_parse_version(id@) == Ok::<Seq<char>, ErrorV>(v@),
            Err(e) => spec_parse_version(id@) == Err::<Seq<char>, ErrorV>(e@),
        },
{
    let prefix = "http://csrc.nist.gov/ns/oscal/1.0/";
    let suffix = "/oscal-complete-schema.json";
    let n = id.unicode_len();
    let plen = prefix.unicode_len();
    let slen = suffix.unicode_len();
    proof {
        reveal_strlit("http://csrc.nist.gov/ns/oscal/1.0/");
        reveal_strlit("/oscal-complete-schema.json");
    }
    if n < plen + slen {
        return Err(Error::VersionParse);
    }
    if !starts_with(id, prefix) {
        return Err(Error::VersionParse);
    }
    let tail = id.substring_char(n - slen, n);
    assert(tail@ =~= id@.skip(id@.len() - suffix@.len()));
    if !str_eq(tail, suffix) {
        return Err(Error::VersionParse);
    }
    let mid = id.substring_char(plen, n - slen);
    assert(mid@ =~= id@.subrange(prefix@.len() as int, id@.len() - suffix@.len()));
    let parts = split_on_char(mid, '.');
    let ghost ps = split_char(mid@, '.');
    assert(parts.deep_view() == ps);
    if parts.len() != 3 {
        return Err(Error::VersionParse);
    }
    assert(parts@[0]@ == ps[0] && parts@[1]@ == ps[1] && parts@[2]@ == ps[2]);
    let p0 = parts[0];
    let p0len = p0.unicode_len();
    if p0len < 1 || p0len > 2 {
        return Err(Error::VersionParse);
    }
    let c0 = p0.get_char(0);
    if !(c0 >= '1' && c0 <= '9') {
        return Err(Error::VersionParse);
    }
    if p0len == 2 {
        let c1 = p0.get_char(1);
        if !(c1 >= '0' && c1 <= '9') {
            return Err(Error::VersionParse);
        }
    }
    if !all_digits(parts[1]) {
        return Err(Error::VersionParse);
    }
    if !all_digits(parts[2]) {
        return Err(Error::VersionParse);
    }
    Ok(mid.to_owned())
}

/// The subtree under `name`: the existing one, a fresh one when the key is
/// absent, or an error when an object sits there.
pub open spec fn spec_take_sub(t: SchemaTreeV, name: Seq<char>) -> Result<SchemaTreeV, ErrorV> {
    match assoc_get(t, name) {
        Some(e) => match e {
            TreeEntryV::Tree(s) => Ok(s),
            _ => Err(ErrorV::NotTree(name)),
        },
        None => Ok(Seq::<(Seq<char>, TreeEntryV)>::empty()),
    }
}

/// `t` with the subtree under `name` replaced in place, or appended when
/// the key was absent.
pub open spec fn spec_put_sub(t: SchemaTreeV, name: Seq<char>, sub: SchemaTreeV) -> SchemaTreeV {
    let i = assoc_first_index(t, name);
    if i >= 0 {
        t.update(i, (name, TreeEntryV::Tree(sub)))
    } else {
        t.push((name, TreeEntryV::Tree(sub)))
    }
}

} // verus!
// The mirror of the tree builder proper: what one pass over a definition
// map does to the tree and the registry.
verus! {

/// The inline reference to the native string type.
pub open spec fn spec_native_string_ref() -> TypeRefV {
    TypeRefV { _type: Some(SchemaTypeV { ns: Seq::<char>::empty(), name: "String"@ }), _ref: None }
}

/// What parsing one definition map into an object node under `entry_name`
/// does: the object's scalar members are read, an identified object is
/// registered, its properties are parsed (which may grow `tree` with
/// synthesized nested objects), and the finished node is placed in `tree`
/// under `entry_name`.
pub open spec fn spec_parse_object(
    entry_name: Seq<char>,
    ns: Seq<char>,
    name: Seq<char>,
    m: Seq<(Seq<char>, JsonV)>,
    tree: SchemaTreeV,
    reg: RegV,
) -> Result<(SchemaTreeV, RegV), ErrorV>
    decreases jheight(JsonV::Object(m)), 0nat, 1nat,
{
    let obj = spec_schema_object(ns, name, m);
    let reg1 = match obj.id {
        Some(id) => assoc_set(reg, id, SchemaTypeV { ns: ns, name: name }),
        None => reg,
    };
    match spec_parse_props(m, obj, tree, reg1) {
        Err(e) => Err(e),
        Ok((obj2, tree2, reg2)) => Ok(
            (assoc_set(tree2, entry_name, TreeEntryV::Object(obj2)), reg2),
        ),
    }
}

/// What parsing the `properties` member does to the object, the tree and
/// the registry.  An absent or non-map member leaves all three unchanged.
pub open spec fn spec_parse_props(
    m: Seq<(Seq<char>, JsonV)>,
    obj: SchemaObjectV,
    tree: SchemaTreeV,
    reg: RegV,
) -> Result<(SchemaObjectV, SchemaTreeV, RegV), ErrorV>
    decreases jheight(JsonV::Object(m)), 0nat, 0nat,
    via spec_parse_props_dec
{
    match assoc_get(m, "properties"@) {
        Some(pv) => match pv {
            JsonV::Object(pm) => match spec_get_required(m) {
                Err(e) => Err(e),
                Ok(reqs) => match spec_props_loop(
                    pm,
                    0,
                    reqs,
                    obj.ns,
                    Seq::<(Seq<char>, PropertyV)>::empty(),
                    tree,
                    reg,
                ) {
                    Err(e) => Err(e),
                    Ok((props, tree2, reg2)) => Ok(
                        (
                            if props.len() > 0 {
                                SchemaObjectV { props: Some(props), ..obj }
                            } else {
                                obj
                            },
                            tree2,
                            reg2,
                        ),
                    ),
                },
            },
            _ => Ok((obj, tree, reg)),
        },
        None => Ok((obj, tree, reg)),
    }
}

#[via_fn]
proof fn spec_parse_props_dec(
    m: Seq<(Seq<char>, JsonV)>,
    obj: SchemaObjectV,
    tree: SchemaTreeV,
    reg: RegV,
) {
    lemma_jheight_member(m, "properties"@);
}

/// What handling the properties from position `i` onwards does: each
/// property becomes a reference, enum-constrained reference, string, array
/// or nested-object property in order, unhandled shapes are skipped, and
/// nested objects grow the tree and the registry.
pub open spec fn spec_props_loop(
    pm: Seq<(Seq<char>, JsonV)>,
    i: int,
    reqs: Seq<Seq<char>>,
    parent_ns: Seq<char>,
    props: Seq<(Seq<char>, PropertyV)>,
    tree: SchemaTreeV,
    reg: RegV,
) -> Result<(Seq<(Seq<char>, PropertyV)>, SchemaTreeV, RegV), ErrorV>
    decreases jheight(JsonV::Object(pm)), pm.len() - i, 2nat,
    via spec_props_loop_dec
{
    if i < 0 || i >= pm.len() {
        Ok((props, tree, reg))
    } else {
        let pname = pm[i].0;
        let required = reqs.contains(pname);
        let entry_name = snake_of(pname);
        match pm[i].1 {
            JsonV::Object(prop_map) => {
                let _type = spec_str_attr(prop_map, "type"@);
                let title = spec_str_attr(prop_map, "title"@);
                let description = spec_str_attr(prop_map, "description"@);
                let ref_name = spec_str_attr(prop_map, "$ref"@);
                if _type is None && ref_name is Some {
                    let prop = PropertyV {
                        optional: !required,
                        array: false,
                        name: entry_name,
                        title,
                        description,
                        type_ref: TypeRefV { _type: None, _ref: ref_name },
                        enums: None,
                    };
                    spec_props_loop(
                        pm,
                        i + 1,
                        reqs,
                        parent_ns,
                        assoc_set(props, entry_name, prop),
                        tree,
                        reg,
                    )
                } else {
                    match spec_get_any_of(prop_map) {
                        Err(e) => Err(e),
                        Ok(Some(a)) => {
                            let prop = PropertyV {
                                optional: !required,
                                array: false,
                                name: entry_name,
                                title,
                                description,
                                type_ref: TypeRefV { _type: None, _ref: Some(a.ref_name) },
                                enums: Some(a.enums),
                            };
                            spec_props_loop(
                                pm,
                                i + 1,
                                reqs,
                                parent_ns,
                                assoc_set(props, entry_name, prop),
                                tree,
                                reg,
                            )
                        },
                        Ok(None) => {
                            if _type == Some("string"@) {
                                let prop = PropertyV {
                                    optional: !required,
                                    array: false,
                                    name: entry_name,
                                    title,
                                    description,
                                    type_ref: spec_native_string_ref(),
                                    enums: None,
                                };
                                spec_props_loop(
                                    pm,
                                    i + 1,
                                    reqs,
                                    parent_ns,
                                    assoc_set(props, entry_name, prop),
                                    tree,
                                    reg,
                                )
                            } else if _type == Some("array"@) {
                                match assoc_get(prop_map, "items"@) {
                                    Some(iv) => match iv {
                                        JsonV::Object(items_m) => match spec_parse_array(
                                            entry_name,
                                            items_m,
                                            parent_ns,
                                            tree,
                                            reg,
                                        ) {
                                            Err(e) => Err(e),
                                            Ok((t_opt, any_opt, tree2, reg2)) => {
                                                let props2 = if t_opt is Some {
                                                    assoc_set(
                                                        props,
                                                        entry_name,
                                                        PropertyV {
                                                            optional: !required,
                                                            array: true,
                                                            name: entry_name,
                                                            title,
                                                            description,
                                                            type_ref: match t_opt {
                                                                Some(t) => t,
                                                                None => spec_native_string_ref(),
                                                            },
                                                            enums: None,
                                                        },
                                                    )
                                                } else {
                                                    match any_opt {
                                                        Some(a) => assoc_set(
                                                            props,
                                                            entry_name,
                                                            PropertyV {
                                                                optional: !required,
                                                                array: true,
                                                                name: entry_name,
                                                                title,
                                                                description,
                                                                type_ref: TypeRefV {
                                                                    _type: None,
                                                                    _ref: Some(a.ref_name),
                                                                },
                                                                enums: Some(a.enums),
                                                            },
                                                        ),
                                                        None => props,
                                                    }
                                                };
                                                spec_props_loop(
                                                    pm,
                                                    i + 1,
                                                    reqs,
                                                    parent_ns,
                                                    props2,
                                                    tree2,
                                                    reg2,
                                                )
                                            },
                                        },
                                        _ => Err(ErrorV::StringExpected),
                                    },
                                    None => Err(ErrorV::AttributeNotFound("items"@)),
                                }
                            } else if _type == Some("object"@) {
                                match spec_take_sub(tree, entry_name) {
                                    Err(e) => Err(e),
                                    Ok(sub) => {
                                        let ns2 = parent_ns + "::"@ + entry_name;
                                        let name2 = pascal_of(entry_name);
                                        match spec_parse_object(
                                            entry_name,
                                            ns2,
                                            name2,
                                            prop_map,
                                            sub,
                                            reg,
                                        ) {
                                            Err(e) => Err(e),
                                            Ok((sub2, reg2)) => {
                                                let prop = PropertyV {
                                                    optional: !required,
                                                    array: false,
                                                    name: entry_name,
                                                    title,
                                                    description,
                                                    type_ref: TypeRefV {
                                                        _type: Some(
                                                            SchemaTypeV { ns: ns2, name: name2 },
                                                        ),
                                                        _ref: None,
                                                    },
                                                    enums: None,
                                                };
                                                spec_props_loop(
                                                    pm,
                                                    i + 1,
                                                    reqs,
                                                    parent_ns,
                                                    assoc_set(props, entry_name, prop),
                                                    spec_put_sub(tree, entry_name, sub2),
                                                    reg2,
                                                )
                                            },
                                        }
                                    },
                                }
                            } else {
                                spec_props_loop(pm, i + 1, reqs, parent_ns, props, tree, reg)
                            }
                        },
                    }
                }
            },
            _ => Err(ErrorV::StringExpected),
        }
    }
}

#[via_fn]
proof fn spec_props_loop_dec(
    pm: Seq<(Seq<char>, JsonV)>,
    i: int,
    reqs: Seq<Seq<char>>,
    parent_ns: Seq<char>,
    props: Seq<(Seq<char>, PropertyV)>,
    tree: SchemaTreeV,
    reg: RegV,
) {
    if 0 <= i < pm.len() {
        lemma_jheight_entry(pm, i);
        match pm[i].1 {
            JsonV::Object(prop_map) => {
                lemma_jheight_member(prop_map, "items"@);
            },
            _ => {},
        }
    }
}

/// What handling an array property's `items` map yields: a direct
/// reference, an enum-constrained reference, a synthesized nested object
/// (growing the tree), the native string type, or nothing for an
/// unhandled item kind; an `items` map with neither `$ref`, a pair, nor a
/// `type` is a malformed array.
pub open spec fn spec_parse_array(
    entry_name: Seq<char>,
    items_m: Seq<(Seq<char>, JsonV)>,
    parent_ns: Seq<char>,
    tree: SchemaTreeV,
    reg: RegV,
) -> Result<(Option<TypeRefV>, Option<AnyOfV>, SchemaTreeV, RegV), ErrorV>
    decreases jheight(JsonV::Object(items_m)), 0nat, 2nat,
{
    match spec_str_attr(items_m, "$ref"@) {
        Some(r) => Ok(
            (Some(TypeRefV { _type: None, _ref: Some(r) }), None::<AnyOfV>, tree, reg),
        ),
        None => match spec_get_any_of(items_m) {
            Err(e) => Err(e),
            Ok(Some(a)) => Ok((None::<TypeRefV>, Some(a), tree, reg)),
            Ok(None) => match spec_str_attr(items_m, "type"@) {
                None => Err(ErrorV::MalformedArray),
                Some(t) => {
                    if t == "object"@ {
                        let entry2 = match spec_str_attr(items_m, "title"@) {
                            Some(title) => snake_of(title),
                            None => spec_unplural(entry_name),
                        };
                        match spec_take_sub(tree, entry2) {
                            Err(e) => Err(e),
                            Ok(sub) => {
                                let ns2 = parent_ns + "::"@ + entry2;
                                let name2 = pascal_of(entry2);
                                match spec_parse_object(entry2, ns2, name2, items_m, sub, reg) {
                                    Err(e) => Err(e),
                                    Ok((sub2, reg2)) => Ok(
                                        (
                                            Some(
                                                TypeRefV {
                                                    _type: Some(
                                                        SchemaTypeV { ns: ns2, name: name2 },
                                                    ),
                                                    _ref: None,
                                                },
                                            ),
                                            None::<AnyOfV>,
                                            spec_put_sub(tree, entry2, sub2),
                                            reg2,
                                        ),
                                    ),
                                }
                            },
                        }
                    } else if t == "string"@ {
                        Ok((Some(spec_native_string_ref()), None::<AnyOfV>, tree, reg))
                    } else {
                        Ok((None::<TypeRefV>, None::<AnyOfV>, tree, reg))
                    }
                },
            },
        },
    }
}

} // verus!
// The executable tree builder, verified against the mirror above.
verus! {

/// The string member of `map` named `key`, owned, when present.
fn opt_str_attr(key: &str, map: &JsonMap) -> (r: Option<String>)
    ensures
        match r {
            Some(s) => spec_str_attr(map@, key@) == Some(s@),
            None => spec_str_attr(map@, key@) is None,
        },
{
    match try_string_entry(key, map) {
        Ok(s) => Some(s.clone()),
        Err(_) => None,
    }
}

/// True when `s` is among the strings of `v`.
fn contains_str(v: &Vec<String>, s: &str) -> (r: bool)
    ensures
        r == v.deep_view().contains(s@),
{
    let n = v.len();
    let mut i: usize = 0;
    #[verifier::loop_isolation(false)]
    while i < n
        invariant
            n == v@.len(),
            0 <= i <= n,
            forall|j: int| 0 <= j < i ==> v.deep_view()[j] != s@,
        decreases n - i,
    {
        assert(v.deep_view()[i as int] == v@[i as int]@);
        if str_eq(v[i].as_str(), s) {
            assert(v.deep_view().contains(s@)) by {
                assert(v.deep_view()[i as int] == s@);
            }
            return true;
        }
        i += 1;
    }
    assert(!v.deep_view().contains(s@)) by {
        if v.deep_view().contains(s@) {
            let w = choose|w: int| 0 <= w < v.deep_view().len() && v.deep_view()[w] == s@;
            assert(v.deep_view()[w] != s@);
        }
    }
    false
}

/// Inserts `prop` under `name` into an ordered property list: in place when
/// the key exists, at the end otherwise.
fn props_set(props: &mut Vec<(String, Property)>, name: &str, prop: Property)
    ensures
        crate::schema_object::props_view(final(props)@) == assoc_set(
            crate::schema_object::props_view(old(props)@),
            name@,
            prop@,
        ),
{
    let ghost oldv = crate::schema_object::props_view(props@);
    let ghost propv = prop@;
    let n = props.len();
    let mut i: usize = 0;
    #[verifier::loop_isolation(false)]
    while i < n
        invariant
            n == props@.len(),
            props@ == old(props)@,
            0 <= i <= n,
            forall|j: int| 0 <= j < i ==> (#[trigger] oldv[j]).0 != name@,
        decreases n - i,
    {
        assert(oldv[i as int].0 == props@[i as int].0@);
        if str_eq(props[i].0.as_str(), name) {
            proof {
                crate::assoc::lemma_assoc_first_index_found(oldv, name@, i as int);
            }
            let pair = (name.to_owned(), prop);
            let ghost pairv = pair;
            props[i] = pair;
            proof {
                assert(props@ == old(props)@.update(i as int, pairv));
                assert(crate::schema_object::props_view(props@) =~= assoc_set(
                    oldv,
                    name@,
                    propv,
                ));
            }
            return ;
        }
        i += 1;
    }
    proof {
        crate::assoc::lemma_assoc_first_index_absent(oldv, name@);
    }
    let pair = (name.to_owned(), prop);
    let ghost pairv = pair;
    props.push(pair);
    proof {
        assert(props@ == old(props)@.push(pairv));
        assert(crate::schema_object::props_view(props@) =~= assoc_set(oldv, name@, propv));
    }
}

/// Parses one definition map into an object node placed in `tree` under
/// `entry_name`, registering it when it carries a stable identifier.  A
/// structural error abandons the run: nested entries already placed in the
/// tree and identifiers already registered remain behind, and the caller
/// discards the whole state.
#[verifier::loop_isolation(false)]
pub fn parse_object(
    entry_name: &str,
    ns: &str,
    name: &str,
    map: &JsonMap,
    tree: &mut SchemaTree,
    resolver: &mut Resolver,
) -> (r: Result<(), Error>)
    ensures
        match r {
            Ok(_) => spec_parse_object(entry_name@, ns@, name@, map@, old(tree)@, old(resolver)@)
                == Ok::<(SchemaTreeV, RegV), ErrorV>((final(tree)@, final(resolver)@)),
            Err(e) => spec_parse_object(entry_name@, ns@, name@, map@, old(tree)@, old(resolver)@)
                == Err::<(SchemaTreeV, RegV), ErrorV>(e@),
        },
    decreases jheight(JsonV::Object(map@)), 0nat, 1nat,
{
    let mut obj = SchemaObject::parse(ns, name, map)?;
    if let Some(id) = &obj.id {
        let schema_type = SchemaType::from(&obj);
        resolver.add_type(id.as_str(), schema_type);
    }
    parse_props(map, &mut obj, tree, resolver)?;
    let _ = tree.add_object(entry_name, &obj);
    Ok(())
}

/// Parses the `properties` member of a definition map into the object's
/// ordered property list, growing `tree` and the registry for nested and
/// array-item objects.  On a structural error the object is left untouched
/// (its property list stays unset); entries that earlier properties already
/// placed in the tree and the registry remain behind, for the caller to
/// discard with the rest of the run.
#[verifier::loop_isolation(false)]
#[verifier::rlimit(60)]
pub fn parse_props(
    obj_map: &JsonMap,
    parent_obj: &mut SchemaObject,
    parent_tree: &mut SchemaTree,
    resolver: &mut Resolver,
) -> (r: Result<(), Error>)
    ensures
        match r {
            Ok(_) => spec_parse_props(obj_map@, old(parent_obj)@, old(parent_tree)@, old(resolver)@)
                == Ok::<(SchemaObjectV, SchemaTreeV, RegV), ErrorV>(
                (final(parent_obj)@, final(parent_tree)@, final(resolver)@),
            ),
            Err(e) => spec_parse_props(
                obj_map@,
                old(parent_obj)@,
                old(parent_tree)@,
                old(resolver)@,
            ) == Err::<(SchemaObjectV, SchemaTreeV, RegV), ErrorV>(e@) && *final(parent_obj)
                == *old(parent_obj),
        },
    decreases jheight(JsonV::Object(obj_map@)), 0nat, 0nat,
{
    let ghost obj0 = parent_obj@;
    let ghost tree0 = parent_tree@;
    let ghost reg0 = resolver@;
    let props_value = match try_map_entry("properties", obj_map) {
        Ok(m) => m,
        Err(_) => {
            return Ok(());
        },
    };
    let ghost pmv = props_value@;
    let requireds = match get_required(obj_map) {
        Ok(v) => v,
        Err(e) => {
            return Err(e);
        },
    };
    let ghost reqsv = requireds.deep_view();
    let mut props: Vec<(String, Property)> = Vec::new();
    proof {
        assert(crate::schema_object::props_view(props@) =~= Seq::<(Seq<char>, PropertyV)>::empty());
        lemma_jheight_member(obj_map@, "properties"@);
    }
    let n = props_value.len();
    let mut i: usize = 0;
    while i < n
        invariant
            n == pmv.len(),
            0 <= i <= n,
            spec_props_loop(pmv, 0, reqsv, obj0.ns, Seq::<(Seq<char>, PropertyV)>::empty(), tree0, reg0)
                == spec_props_loop(
                pmv,
                i as int,
                reqsv,
                obj0.ns,
                crate::schema_object::props_view(props@),
                parent_tree@,
                resolver@,
            ),
            parent_obj@ == obj0,
            *parent_obj == *old(parent_obj),
        decreases n - i,
    {
        let ghost props_pre = crate::schema_object::props_view(props@);
        let ghost tree_pre = parent_tree@;
        let ghost reg_pre = resolver@;
        let pair = props_value.entry_at(i);
        let prop_name = &pair.0;
        let required = contains_str(&requireds, prop_name.as_str());
        let entry_name = to_snake(prop_name.as_str());
        let prop_map = match value_to_map(&pair.1) {
            Ok(m) => m,
            Err(e) => {
                assert(spec_props_loop(pmv, i as int, reqsv, obj0.ns, props_pre, tree_pre, reg_pre)
                    == Err::<(Seq<(Seq<char>, PropertyV)>, SchemaTreeV, RegV), ErrorV>(e@));
                return Err(e);
            },
        };
        proof {
            lemma_jheight_entry(pmv, i as int);
        }
        let _type = opt_str_attr("type", prop_map);
        let title = opt_str_attr("title", prop_map);
        let description = opt_str_attr("description", prop_map);
        let ref_name = opt_str_attr("$ref", prop_map);
        if _type.is_none() && ref_name.is_some() {
            let prop = Property {
                optional: !required,
                array: false,
                name: entry_name.clone(),
                title,
                description,
                type_ref: TypeRef { _type: None, _ref: ref_name },
                enums: None,
            };
            props_set(&mut props, entry_name.as_str(), prop);
        } else {
            let any = match get_any_of(prop_map) {
                Ok(a) => a,
                Err(e) => {
                    assert(spec_props_loop(
                        pmv,
                        i as int,
                        reqsv,
                        obj0.ns,
                        props_pre,
                        tree_pre,
                        reg_pre,
                    ) == Err::<(Seq<(Seq<char>, PropertyV)>, SchemaTreeV, RegV), ErrorV>(e@));
                    return Err(e);
                },
            };
            match any {
                Some(any_of) => {
                    let prop = Property {
                        optional: !required,
                        array: false,
                        name: entry_name.clone(),
                        title,
                        description,
                        type_ref: TypeRef { _type: None, _ref: Some(any_of.ref_name) },
                        enums: Some(any_of.enums),
                    };
                    props_set(&mut props, entry_name.as_str(), prop);
                },
                None => {
                    let is_string_type = match &_type {
                        Some(t) => str_eq(t.as_str(), "string"),
                        None => false,
                    };
                    let is_array_type = match &_type {
                        Some(t) => str_eq(t.as_str(), "array"),
                        None => false,
                    };
                    let is_object_type = match &_type {
                        Some(t) => str_eq(t.as_str(), "object"),
                        None => false,
                    };
                    if is_string_type {
                        let prop = Property {
                            optional: !required,
                            array: false,
                            name: entry_name.clone(),
                            title,
                            description,
                            type_ref: TypeRef::native_string(),
                            enums: None,
                        };
                        props_set(&mut props, entry_name.as_str(), prop);
                    } else if is_array_type {
                        let items = match try_map_entry("items", prop_map) {
                            Ok(m) => m,
                            Err(e) => {
                                assert(spec_props_loop(
                                    pmv,
                                    i as int,
                                    reqsv,
                                    obj0.ns,
                                    props_pre,
                                    tree_pre,
                                    reg_pre,
                                ) == Err::<(Seq<(Seq<char>, PropertyV)>, SchemaTreeV, RegV), ErrorV>(
                                    e@,
                                ));
                                return Err(e);
                            },
                        };
                        proof {
                            lemma_jheight_member(prop_map@, "items"@);
                        }
                        let arr = match parse_array(
                            entry_name.as_str(),
                            items,
                            parent_obj,
                            parent_tree,
                            resolver,
                        ) {
                            Ok(p) => p,
                            Err(e) => {
                                assert(spec_props_loop(
                                    pmv,
                                    i as int,
                                    reqsv,
                                    obj0.ns,
                                    props_pre,
                                    tree_pre,
                                    reg_pre,
                                ) == Err::<(Seq<(Seq<char>, PropertyV)>, SchemaTreeV, RegV), ErrorV>(
                                    e@,
                                ));
                                return Err(e);
                            },
                        };
                        match arr {
                            (Some(type_ref), _) => {
                                let prop = Property {
                                    optional: !required,
                                    array: true,
                                    name: entry_name.clone(),
                                    title,
                                    description,
                                    type_ref,
                                    enums: None,
                                };
                                props_set(&mut props, entry_name.as_str(), prop);
                            },
                            (None, Some(any_of)) => {
                                let prop = Property {
                                    optional: !required,
                                    array: true,
                                    name: entry_name.clone(),
                                    title,
                                    description,
                                    type_ref: TypeRef {
                                        _type: None,
                                        _ref: Some(any_of.ref_name),
                                    },
                                    enums: Some(any_of.enums),
                                };
                                props_set(&mut props, entry_name.as_str(), prop);
                            },
                            (None, None) => {},
                        }
                    } else if is_object_type {
                        let taken = match parent_tree.take_tree(entry_name.as_str()) {
                            Ok(t) => t,
                            Err(e) => {
                                assert(spec_props_loop(
                                    pmv,
                                    i as int,
                                    reqsv,
                                    obj0.ns,
                                    props_pre,
                                    tree_pre,
                                    reg_pre,
                                ) == Err::<(Seq<(Seq<char>, PropertyV)>, SchemaTreeV, RegV), ErrorV>(
                                    e@,
                                ));
                                return Err(e);
                            },
                        };
                        let (idx, mut sub) = taken;
                        let ghost subv = sub@;
                        let mut ns2 = parent_obj.ns.clone();
                        ns2.append("::");
                        ns2.append(entry_name.as_str());
                        let name2 = to_pascal(entry_name.as_str());
                        match parse_object(
                            entry_name.as_str(),
                            ns2.as_str(),
                            name2.as_str(),
                            prop_map,
                            &mut sub,
                            resolver,
                        ) {
                            Ok(_) => {},
                            Err(e) => {
                                assert(spec_props_loop(
                                    pmv,
                                    i as int,
                                    reqsv,
                                    obj0.ns,
                                    props_pre,
                                    tree_pre,
                                    reg_pre,
                                ) == Err::<(Seq<(Seq<char>, PropertyV)>, SchemaTreeV, RegV), ErrorV>(
                                    e@,
                                ));
                                return Err(e);
                            },
                        }
                        let ghost before_put = parent_tree@;
                        proof {
                            lemma_assoc_first_index_range(tree_pre, entry_name@);
                        }
                        parent_tree.put_tree(idx, entry_name.as_str(), sub);
                        proof {
                            lemma_put_after_take(tree_pre, before_put, parent_tree@, entry_name@, idx as int, sub@);
                        }
                        let prop = Property {
                            optional: !required,
                            array: false,
                            name: entry_name.clone(),
                            title,
                            description,
                            type_ref: TypeRef::from_type(&SchemaType { ns: ns2, name: name2 }),
                            enums: None,
                        };
                        props_set(&mut props, entry_name.as_str(), prop);
                    } else {
                        // An unhandled property shape: skipped by design.
                    }
                },
            }
        }
        proof {
            assert(spec_props_loop(pmv, i as int, reqsv, obj0.ns, props_pre, tree_pre, reg_pre)
                == spec_props_loop(
                pmv,
                i + 1,
                reqsv,
                obj0.ns,
                crate::schema_object::props_view(props@),
                parent_tree@,
                resolver@,
            ));
        }
        i += 1;
    }
    if props.len() > 0 {
        parent_obj.props = Some(props);
        proof {
            assert(final(parent_obj)@ =~= (SchemaObjectV {
                props: Some(
                    crate::schema_object::props_view(
                        match final(parent_obj).props {
                            Some(p) => p@,
                            None => Seq::<(String, Property)>::empty(),
                        },
                    ),
                ),
                ..obj0
            }));
        }
    }
    Ok(())
}

/// One take/put round trip replaces or appends the named subtree.
pub proof fn lemma_put_after_take(
    before: SchemaTreeV,
    mid: SchemaTreeV,
    after: SchemaTreeV,
    name: Seq<char>,
    idx: int,
    sub: SchemaTreeV,
)
    requires
        crate::assoc::assoc_has(before, name) ==> idx == assoc_first_index(before, name) && mid
            == before.remove(idx),
        !crate::assoc::assoc_has(before, name) ==> idx == before.len() && mid == before,
        0 <= idx <= mid.len(),
        after == mid.insert(idx, (name, TreeEntryV::Tree(sub))),
    ensures
        after == spec_put_sub(before, name, sub),
{
    lemma_assoc_first_index_range(before, name);
    if crate::assoc::assoc_has(before, name) {
        before.remove_ensures(idx);
        mid.insert_ensures(idx, (name, TreeEntryV::Tree(sub)));
        before.update(idx, (name, TreeEntryV::Tree(sub)));
        assert forall|j: int| 0 <= j < after.len() implies after[j] == spec_put_sub(
            before,
            name,
            sub,
        )[j] by {
            if j < idx {
                assert(after[j] == mid[j]);
                assert(mid[j] == before[j]);
            } else if j == idx {
                assert(after[j] == (name, TreeEntryV::Tree(sub)));
            } else {
                assert(after[j] == mid[j - 1]);
                assert(mid[j - 1] == before[j]);
            }
        }
        assert(after =~= spec_put_sub(before, name, sub));
    } else {
        mid.insert_ensures(idx, (name, TreeEntryV::Tree(sub)));
        assert forall|j: int| 0 <= j < after.len() implies after[j] == spec_put_sub(
            before,
            name,
            sub,
        )[j] by {
            if j < idx {
                assert(after[j] == mid[j]);
            } else {
                assert(after[j] == (name, TreeEntryV::Tree(sub)));
            }
        }
        assert(after =~= spec_put_sub(before, name, sub));
    }
}

/// Parses an array property's `items`: a `$ref`, an enum-constrained
/// reference pair, a synthesized nested object, the native string type, or
/// an unhandled item kind yielding no reference at all.  An `items` map
/// with none of these shapes is a malformed array, and leaves the tree and
/// the registry untouched; an error from inside a synthesized object
/// abandons the run with the partial state for the caller to discard.
#[verifier::loop_isolation(false)]
pub fn parse_array(
    entry_name: &str,
    items: &JsonMap,
    parent_obj: &SchemaObject,
    parent_tree: &mut SchemaTree,
    resolver: &mut Resolver,
) -> (r: Result<(Option<TypeRef>, Option<AnyOf>), Error>)
    ensures
        match r {
            Ok(p) => spec_parse_array(
                entry_name@,
                items@,
                parent_obj.ns@,
                old(parent_tree)@,
                old(resolver)@,
            ) == Ok::<(Option<TypeRefV>, Option<AnyOfV>, SchemaTreeV, RegV), ErrorV>(
                (
                    match p.0 {
                        Some(t) => Some(t@),
                        None => None,
                    },
                    match p.1 {
                        Some(a) => Some(a@),
                        None => None,
                    },
                    final(parent_tree)@,
                    final(resolver)@,
                ),
            ),
            Err(e) => spec_parse_array(
                entry_name@,
                items@,
                parent_obj.ns@,
                old(parent_tree)@,
                old(resolver)@,
            ) == Err::<(Option<TypeRefV>, Option<AnyOfV>, SchemaTreeV, RegV), ErrorV>(e@),
        },
        spec_str_attr(items@, "$ref"@) is None && spec_get_any_of(items@) == Ok::<
            Option<AnyOfV>,
            ErrorV,
        >(None) && spec_str_attr(items@, "type"@) is None ==> final(parent_tree)@ == old(
            parent_tree,
        )@ && final(resolver)@ == old(resolver)@,
    decreases jheight(JsonV::Object(items@)), 0nat, 2nat,
{
    match try_string_entry("$ref", items) {
        Ok(_ref) => {
            return Ok((Some(TypeRef::from_ref(Some(_ref.clone()))), None));
        },
        Err(_) => {},
    }
    match get_any_of(items)? {
        Some(any_of) => {
            return Ok((None, Some(any_of)));
        },
        None => {},
    }
    let _type = match try_string_entry("type", items) {
        Ok(t) => t,
        Err(_) => {
            return Err(Error::MalformedArray);
        },
    };
    if str_eq(_type.as_str(), "object") {
        let entry_name2: String = match try_string_entry("title", items) {
            Ok(title) => to_snake(title.as_str()),
            Err(_) => entry_name.unplural(),
        };
        let taken = parent_tree.take_tree(entry_name2.as_str())?;
        let (idx, mut sub) = taken;
        let mut ns2 = parent_obj.ns.clone();
        ns2.append("::");
        ns2.append(entry_name2.as_str());
        let name2 = to_pascal(entry_name2.as_str());
        parse_object(
            entry_name2.as_str(),
            ns2.as_str(),
            name2.as_str(),
            items,
            &mut sub,
            resolver,
        )?;
        let ghost before_put = parent_tree@;
        let ghost tree0 = old(parent_tree)@;
        proof {
            lemma_assoc_first_index_range(tree0, entry_name2@);
        }
        parent_tree.put_tree(idx, entry_name2.as_str(), sub);
        proof {
            lemma_put_after_take(tree0, before_put, parent_tree@, entry_name2@, idx as int, sub@);
        }
        let st = SchemaType::new(ns2.as_str(), name2.as_str());
        return Ok((Some(TypeRef::from_type(&st)), None));
    } else if str_eq(_type.as_str(), "string") {
        return Ok((Some(TypeRef::native_string()), None));
    }
    // An unhandled item kind: reported by the caller's diagnostics, the
    // property is omitted.
    Ok((None, None))
}

} // verus!
// The document root: metadata extraction and the walk over `definitions`.
verus! {

/// The string member that a document must carry, or the fitting error.
pub open spec fn spec_req_str(m: Seq<(Seq<char>, JsonV)>, key: Seq<char>) -> Result<
    Seq<char>,
    ErrorV,
> {
    match assoc_get(m, key) {
        Some(v) => match v {
            JsonV::Str(s) => Ok(s),
            _ => Err(ErrorV::StringExpected),
        },
        None => Err(ErrorV::AttributeNotFound(key)),
    }
}

/// What walking the definitions from position `i` onwards does: built-in
/// datatype entries are skipped; a bare name becomes a top-level object;
/// a compound key becomes an object two subtree levels down, both levels
/// created on demand.
pub open spec fn spec_defs_loop(
    dm: Seq<(Seq<char>, JsonV)>,
    i: int,
    tree: SchemaTreeV,
    reg: RegV,
) -> Result<(SchemaTreeV, RegV), ErrorV>
    decreases dm.len() - i,
{
    if i < 0 || i >= dm.len() {
        Ok((tree, reg))
    } else {
        let name = dm[i].0;
        if data_types_spec().contains(name) {
            spec_defs_loop(dm, i + 1, tree, reg)
        } else {
            let left = if spec_is_namespace(name) {
                snake_of(spec_name_parts(name)[0])
            } else {
                Seq::<char>::empty()
            };
            let right = if spec_is_namespace(name) {
                snake_of(spec_name_parts(name)[1])
            } else {
                snake_of(name)
            };
            let rust = if spec_is_namespace(name) {
                pascal_of(spec_name_parts(name)[1])
            } else {
                name
            };
            match dm[i].1 {
                JsonV::Object(m) => {
                    if left.len() == 0 {
                        match spec_parse_object(right, right, rust, m, tree, reg) {
                            Err(e) => Err(e),
                            Ok((tree2, reg2)) => spec_defs_loop(dm, i + 1, tree2, reg2),
                        }
                    } else {
                        match spec_take_sub(tree, left) {
                            Err(e) => Err(e),
                            Ok(ltree) => match spec_take_sub(ltree, right) {
                                Err(e) => Err(e),
                                Ok(rtree) => {
                                    let ns = left + "::"@ + right;
                                    match spec_parse_object(right, ns, rust, m, rtree, reg) {
                                        Err(e) => Err(e),
                                        Ok((rtree2, reg2)) => spec_defs_loop(
                                            dm,
                                            i + 1,
                                            spec_put_sub(tree, left, spec_put_sub(ltree, right, rtree2)),
                                            reg2,
                                        ),
                                    }
                                },
                            },
                        }
                    }
                },
                _ => Err(ErrorV::StringExpected),
            }
        }
    }
}

/// What the whole run yields over a document: its `$schema`, the version
/// extracted from `$id`, its `$comment`, and the tree and registry after
/// the definitions walk.  A missing required member or a malformed entry
/// is a fatal error.
pub open spec fn spec_parse_schema(v: JsonV, reg: RegV) -> Result<
    (Seq<char>, Seq<char>, Seq<char>, SchemaTreeV, RegV),
    ErrorV,
> {
    match v {
        JsonV::Object(sm) => match spec_req_str(sm, "$schema"@) {
            Err(e) => Err(e),
            Ok(schema) => match spec_req_str(sm, "$id"@) {
                Err(e) => Err(e),
                Ok(id) => match spec_parse_version(id) {
                    Err(e) => Err(e),
                    Ok(version) => match spec_req_str(sm, "$comment"@) {
                        Err(e) => Err(e),
                        Ok(comment) => match assoc_get(sm, "definitions"@) {
                            Some(dv) => match dv {
                                JsonV::Object(dm) => match spec_defs_loop(
                                    dm,
                                    0,
                                    Seq::<(Seq<char>, TreeEntryV)>::empty(),
                                    reg,
                                ) {
                                    Err(e) => Err(e),
                                    Ok((tree, reg2)) => Ok((schema, version, comment, tree, reg2)),
                                },
                                _ => Err(ErrorV::StringExpected),
                            },
                            None => Err(ErrorV::AttributeNotFound("definitions"@)),
                        },
                    },
                },
            },
        },
        _ => Err(ErrorV::StringExpected),
    }
}

/// Walks the `definitions` member, building the tree and the registry.  A
/// structural error abandons the walk with whatever partial state the
/// earlier entries built, which the caller discards with the run.
#[verifier::loop_isolation(false)]
#[verifier::rlimit(60)]
fn parse_definitions(
    schema_map: &JsonMap,
    crate_tree: &mut Schema,
    resolver: &mut Resolver,
) -> (r: Result<(), Error>)
    ensures
        match r {
            Ok(_) => (match assoc_get(schema_map@, "definitions"@) {
                Some(dv) => dv matches JsonV::Object(dm) && spec_defs_loop(
                    dm,
                    0,
                    old(crate_tree).tree@,
                    old(resolver)@,
                ) == Ok::<(SchemaTreeV, RegV), ErrorV>((final(crate_tree).tree@, final(resolver)@)),
                None => false,
            }) && final(crate_tree).schema == old(crate_tree).schema && final(crate_tree).version
                == old(crate_tree).version && final(crate_tree).comment == old(
                crate_tree,
            ).comment,
            Err(e) => match assoc_get(schema_map@, "definitions"@) {
                Some(dv) => match dv {
                    JsonV::Object(dm) => spec_defs_loop(
                        dm,
                        0,
                        old(crate_tree).tree@,
                        old(resolver)@,
                    ) == Err::<(SchemaTreeV, RegV), ErrorV>(e@),
                    _ => e@ == ErrorV::StringExpected,
                },
                None => e@ == ErrorV::AttributeNotFound("definitions"@),
            },
        },
{
    let ghost tree0 = crate_tree.tree@;
    let ghost reg0 = resolver@;
    let definitions = match try_map_entry("definitions", schema_map) {
        Ok(m) => m,
        Err(e) => {
            return Err(e);
        },
    };
    let ghost dmv = definitions@;
    let n = definitions.len();
    let mut i: usize = 0;
    while i < n
        invariant
            n == dmv.len(),
            0 <= i <= n,
            spec_defs_loop(dmv, 0, tree0, reg0) == spec_defs_loop(
                dmv,
                i as int,
                crate_tree.tree@,
                resolver@,
            ),
            crate_tree.schema == old(crate_tree).schema,
            crate_tree.version == old(crate_tree).version,
            crate_tree.comment == old(crate_tree).comment,
        decreases n - i,
    {
        let ghost tree_pre = crate_tree.tree@;
        let ghost reg_pre = resolver@;
        let pair = definitions.entry_at(i);
        let name = &pair.0;
        if is_datatype(name.as_str()) {
            // Built-in datatypes come from an external primitives module.
            i += 1;
            continue ;
        }
        let names = NamespaceEntry::from(name.as_str());
        let map = match value_to_map(&pair.1) {
            Ok(m) => m,
            Err(e) => {
                assert(spec_defs_loop(dmv, i as int, tree_pre, reg_pre) == Err::<
                    (SchemaTreeV, RegV),
                    ErrorV,
                >(e@));
                return Err(e);
            },
        };
        if names.left.as_str().is_empty() {
            match parse_object(
                names.right.as_str(),
                names.right.as_str(),
                names.rust.as_str(),
                map,
                &mut crate_tree.tree,
                resolver,
            ) {
                Ok(_) => {},
                Err(e) => {
                    assert(spec_defs_loop(dmv, i as int, tree_pre, reg_pre) == Err::<
                        (SchemaTreeV, RegV),
                        ErrorV,
                    >(e@));
                    return Err(e);
                },
            }
        } else {
            let taken_l = match crate_tree.tree.take_tree(names.left.as_str()) {
                Ok(t) => t,
                Err(e) => {
                    assert(spec_defs_loop(dmv, i as int, tree_pre, reg_pre) == Err::<
                        (SchemaTreeV, RegV),
                        ErrorV,
                    >(e@));
                    return Err(e);
                },
            };
            let (li, mut ltree) = taken_l;
            let ghost ltree0 = ltree@;
            let taken_r = match ltree.take_tree(names.right.as_str()) {
                Ok(t) => t,
                Err(e) => {
                    assert(spec_defs_loop(dmv, i as int, tree_pre, reg_pre) == Err::<
                        (SchemaTreeV, RegV),
                        ErrorV,
                    >(e@));
                    return Err(e);
                },
            };
            let (ri, mut rtree) = taken_r;
            let mut ns = names.left.clone();
            ns.append("::");
            ns.append(names.right.as_str());
            match parse_object(
                names.right.as_str(),
                ns.as_str(),
                names.rust.as_str(),
                map,
                &mut rtree,
                resolver,
            ) {
                Ok(_) => {},
                Err(e) => {
                    assert(spec_defs_loop(dmv, i as int, tree_pre, reg_pre) == Err::<
                        (SchemaTreeV, RegV),
                        ErrorV,
                    >(e@));
                    return Err(e);
                },
            }
            let ghost lmid = ltree@;
            proof {
                lemma_assoc_first_index_range(ltree0, names.right@);
            }
            ltree.put_tree(ri, names.right.as_str(), rtree);
            proof {
                lemma_put_after_take(ltree0, lmid, ltree@, names.right@, ri as int, rtree@);
            }
            let ghost tmid = crate_tree.tree@;
            proof {
                lemma_assoc_first_index_range(tree_pre, names.left@);
            }
            crate_tree.tree.put_tree(li, names.left.as_str(), ltree);
            proof {
                lemma_put_after_take(
                    tree_pre,
                    tmid,
                    crate_tree.tree@,
                    names.left@,
                    li as int,
                    ltree@,
                );
            }
        }
        proof {
            assert(spec_defs_loop(dmv, i as int, tree_pre, reg_pre) == spec_defs_loop(
                dmv,
                i + 1,
                crate_tree.tree@,
                resolver@,
            ));
        }
        i += 1;
    }
    Ok(())
}

/// Parses a whole document: its required metadata and every definition.
/// On an error no document is produced; the run is abandoned with no
/// partial output.
pub fn parse_schema(value: &JsonValue, resolver: &mut Resolver) -> (r: Result<Schema, Error>)
    ensures
        match r {
            Ok(s) => spec_parse_schema(value@, old(resolver)@) == Ok::<
                (Seq<char>, Seq<char>, Seq<char>, SchemaTreeV, RegV),
                ErrorV,
            >((s.schema@, s.version@, s.comment@, s.tree@, final(resolver)@)),
            Err(e) => spec_parse_schema(value@, old(resolver)@) == Err::<
                (Seq<char>, Seq<char>, Seq<char>, SchemaTreeV, RegV),
                ErrorV,
            >(e@),
        },
{
    let schema_map = value_to_map(value)?;
    let schema = try_string_entry("$schema", schema_map)?;
    let id = try_string_entry("$id", schema_map)?;
    let version = parse_version_from_id(id.as_str())?;
    let comment = try_string_entry("$comment", schema_map)?;
    let mut crate_tree = Schema::new(schema.as_str(), version.as_str(), comment.as_str());
    parse_definitions(schema_map, &mut crate_tree, resolver)?;
    Ok(crate_tree)
}

/// Determinism of the whole pipeline: what a run yields is a function of
/// the document and the seed registry alone, so two runs over the same
/// document produce identical trees, identical registry contents, and
/// identical metadata.
pub proof fn lemma_parse_schema_deterministic(
    v: JsonV,
    reg: RegV,
    r1: Result<(Seq<char>, Seq<char>, Seq<char>, SchemaTreeV, RegV), ErrorV>,
    r2: Result<(Seq<char>, Seq<char>, Seq<char>, SchemaTreeV, RegV), ErrorV>,
)
    requires
        r1 == spec_parse_schema(v, reg),
        r2 == spec_parse_schema(v, reg),
    ensures
        r1 == r2,
{
}

} // verus!
