//! The type registry: a mapping from reference identifier to resolved type
//! descriptor, seeded with the built-in primitive datatypes, populated while
//! the tree is built, and queried during tree construction and import
//! synthesis.

use vstd::prelude::*;
use crate::assoc::{
    assoc_get, assoc_set, lemma_assoc_first_index_absent, lemma_assoc_first_index_found,
    lemma_assoc_set_get,
};
use crate::data_type::{data_type_names, data_types_spec};
use crate::schema_type::{SchemaType, SchemaTypeV};
use crate::text::str_eq;
use crate::type_ref::{TypeRef, TypeRefV};

verus! {

/// The registry.  Lookups return the first entry with the asked-for
/// identifier; registration overwrites in place, so the most recent
/// registration of an identifier is the one that resolves.
pub struct Resolver {
    map: Vec<(String, SchemaType)>,
}

impl View for Resolver {
    type V = Seq<(Seq<char>, SchemaTypeV)>;

    closed spec fn view(&self) -> Seq<(Seq<char>, SchemaTypeV)> {
        Seq::new(self.map@.len(), |i: int| (self.map@[i].0@, self.map@[i].1@))
    }
}

/// The conventional identifier of a built-in datatype.
pub open spec fn spec_builtin_id(name: Seq<char>) -> Seq<char> {
    "#/definitions/"@ + name
}

/// The seed entries: every built-in datatype name, under its conventional
/// identifier, in the reserved built-in namespace.
pub open spec fn spec_seed() -> Seq<(Seq<char>, SchemaTypeV)> {
    Seq::new(
        data_types_spec().len(),
        |i: int|
            (
                spec_builtin_id(data_types_spec()[i]),
                SchemaTypeV { ns: "oscal_types"@, name: data_types_spec()[i] },
            ),
    )
}

/// What resolving `tr` against the registry contents `m` yields: the target
/// of a symbolic reference when registered, or the inline descriptor.
pub open spec fn spec_resolve(m: Seq<(Seq<char>, SchemaTypeV)>, tr: TypeRefV) -> Option<
    SchemaTypeV,
> {
    match tr._ref {
        Some(rf) => assoc_get(m, rf),
        None => tr._type,
    }
}

impl Resolver {
    /// A registry holding exactly the built-in seed entries.
    pub fn new() -> (r: Self)
        ensures
            r@ == spec_seed(),
    {
        let mut result = Self { map: Vec::new() };
        load_data_types(&mut result);
        proof {
            assert(result@ =~= spec_seed());
        }
        result
    }

    /// Registers `type_ref` under `id`: an insert-or-overwrite that never
    /// fails.
    #[verifier::loop_isolation(false)]
    pub fn add_type(&mut self, id: &str, type_ref: SchemaType)
        ensures
            final(self)@ == assoc_set(old(self)@, id@, type_ref@),
    {
        let ghost oldv = self@;
        let ghost trv = type_ref@;
        let n = self.map.len();
        let mut i: usize = 0;
        while i < n
            invariant
                n == self.map@.len(),
                oldv == self@,
                trv == type_ref@,
                oldv.len() == n,
                0 <= i <= n,
                forall|j: int| 0 <= j < i ==> (#[trigger] oldv[j]).0 != id@,
            decreases n - i,
        {
            assert(oldv[i as int].0 == self.map@[i as int].0@);
            if str_eq(self.map[i].0.as_str(), id) {
                proof {
                    lemma_assoc_first_index_found(oldv, id@, i as int);
                }
                let ghost olde = self.map@;
                let pair = (id.to_owned(), type_ref);
                let ghost pairv = pair;
                self.map[i] = pair;
                proof {
                    assert(self.map@ == olde.update(i as int, pairv));
                    assert(self@ =~= assoc_set(oldv, id@, trv));
                }
                return ;
            }
            i += 1;
        }
        proof {
            lemma_assoc_first_index_absent(oldv, id@);
        }
        let ghost olde = self.map@;
        let pair = (id.to_owned(), type_ref);
        let ghost pairv = pair;
        self.map.push(pair);
        proof {
            assert(self.map@ == olde.push(pairv));
            assert(self@ =~= assoc_set(oldv, id@, trv));
        }
    }

    /// Resolves a reference: a symbolic reference is looked up and its
    /// target returned as a copy when registered and nothing otherwise; an
    /// inline reference is returned directly.
    #[verifier::loop_isolation(false)]
    pub fn resolve(&self, type_ref: &TypeRef) -> (r: Option<SchemaType>)
        ensures
            match r {
                Some(t) => spec_resolve(self@, type_ref@) == Some(t@),
                None => spec_resolve(self@, type_ref@) is None,
            },
    {
        if let Some(_ref) = &type_ref._ref {
            let n = self.map.len();
            let mut i: usize = 0;
            while i < n
                invariant
                    n == self.map@.len(),
                    n == self@.len(),
                    0 <= i <= n,
                    forall|j: int| 0 <= j < i ==> (#[trigger] self@[j]).0 != _ref@,
                decreases n - i,
            {
                assert(self@[i as int].0 == self.map@[i as int].0@);
                if str_eq(self.map[i].0.as_str(), _ref.as_str()) {
                    proof {
                        lemma_assoc_first_index_found(self@, _ref@, i as int);
                    }
                    return Some(self.map[i].1.clone());
                }
                i += 1;
            }
            proof {
                lemma_assoc_first_index_absent(self@, _ref@);
            }
            return None;
        }
        if let Some(_type) = &type_ref._type {
            return Some(_type.clone());
        }
        None
    }
}

impl Default for Resolver {
    /// The same seeded registry as `new`.
    fn default() -> (r: Self)
        ensures
            r@ == spec_seed(),
    {
        Self::new()
    }
}

/// Seeds `map` with the built-in datatypes: each name under its
/// conventional `#/definitions/` identifier, in the reserved built-in
/// namespace.
pub fn load_data_types(map: &mut Resolver)
    ensures
        final(map)@ == old(map)@ + spec_seed(),
{
    let names = data_type_names();
    let n = names.len();
    let mut i: usize = 0;
    while i < n
        invariant
            n == names@.len(),
            names.deep_view() == data_types_spec(),
            n == data_types_spec().len(),
            0 <= i <= n,
            map@ == old(map)@ + spec_seed().take(i as int),
        decreases n - i,
    {
        assert(names@[i as int]@ == data_types_spec()[i as int]);
        let mut key = "#/definitions/".to_owned();
        key.append(names[i]);
        let t = SchemaType::new("oscal_types", names[i]);
        let ghost prev = map@;
        let pair = (key, t);
        let ghost pairv = pair;
        map.map.push(pair);
        proof {
            assert(map@ =~= prev.push((pairv.0@, pairv.1@)));
            assert(pairv.0@ == spec_builtin_id(data_types_spec()[i as int]));
            assert(map@ =~= old(map)@ + spec_seed().take(i + 1));
        }
        i += 1;
    }
    proof {
        assert(spec_seed().take(n as int) =~= spec_seed());
        assert(final(map)@ =~= old(map)@ + spec_seed());
    }
}

/// Registering an identifier twice leaves only the most recent descriptor
/// resolvable: resolving a symbolic reference to `id` after two
/// registrations yields the second descriptor, and no other identifier is
/// affected by either registration.
pub proof fn lemma_registry_last_write_wins(
    m: Seq<(Seq<char>, SchemaTypeV)>,
    id: Seq<char>,
    t1: SchemaTypeV,
    t2: SchemaTypeV,
    other: Seq<char>,
)
    ensures
        assoc_get(assoc_set(assoc_set(m, id, t1), id, t2), id) == Some(t2),
        other != id ==> assoc_get(assoc_set(assoc_set(m, id, t1), id, t2), other) == assoc_get(
            m,
            other,
        ),
{
    lemma_assoc_set_get(m, id, t1, other);
    lemma_assoc_set_get(assoc_set(m, id, t1), id, t2, other);
}

} // verus!
