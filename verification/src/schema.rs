//! The parsed document root: its identifying metadata and the tree of
//! definitions.

use vstd::prelude::*;
use crate::assoc::{assoc_get, assoc_has, assoc_set};
use crate::error::Error;
use crate::schema_object::SchemaObject;
use crate::schema_tree::{spec_is_reducable, SchemaTree};
use crate::tree_entry::{TreeEntry, TreeEntryV};

verus! {

/// A parsed schema document: the `$schema` dialect, the version extracted
/// from `$id`, the `$comment`, and the definitions tree.
pub struct Schema {
    pub schema: String,
    pub version: String,
    pub comment: String,
    pub tree: SchemaTree,
}

impl Schema {
    /// A root with the given metadata and no definitions yet.
    pub fn new(schema: &str, version: &str, comment: &str) -> (r: Self)
        ensures
            r.schema@ == schema@,
            r.version@ == version@,
            r.comment@ == comment@,
            r.tree@ == Seq::<(Seq<char>, TreeEntryV)>::empty(),
    {
        Self {
            schema: schema.to_owned(),
            version: version.to_owned(),
            comment: comment.to_owned(),
            tree: SchemaTree::new(),
        }
    }

    /// The keys of the top level, in entry order.
    pub fn keys(&self) -> (r: Vec<String>)
        ensures
            r.deep_view() == Seq::new(self.tree@.len(), |i: int| self.tree@[i].0),
    {
        self.tree.keys()
    }

    /// True when a top-level entry named `key` is present.
    pub fn has(&self, key: &str) -> (r: bool)
        ensures
            r == assoc_has(self.tree@, key@),
    {
        self.tree.has(key)
    }

    /// The top-level entry named `name`, or an error naming it.
    pub fn get(&self, name: &str) -> (r: Result<&TreeEntry, Error>)
        ensures
            match r {
                Ok(e) => assoc_get(self.tree@, name@) == Some(e@),
                Err(e) => !assoc_has(self.tree@, name@) && e@ == crate::error::ErrorV::EntryNotFound(
                    name@,
                ),
            },
    {
        self.tree.get(name)
    }

    /// The top-level object named `name`, or the fitting error.
    pub fn get_object(&self, name: &str) -> (r: Result<&SchemaObject, Error>)
        ensures
            match r {
                Ok(obj) => assoc_get(self.tree@, name@) == Some(TreeEntryV::Object(obj@)),
                Err(e) => match e@ {
                    crate::error::ErrorV::EntryNotFound(k) => k == name@ && !assoc_has(
                        self.tree@,
                        name@,
                    ),
                    crate::error::ErrorV::NotObject(k) => k == name@ && (assoc_get(
                        self.tree@,
                        name@,
                    ) matches Some(v) && !(v is Object)),
                    _ => false,
                },
            },
    {
        self.tree.get_object(name)
    }

    /// The top-level subtree named `name`, or the fitting error.
    pub fn get_tree(&self, name: &str) -> (r: Result<&SchemaTree, Error>)
        ensures
            match r {
                Ok(t) => assoc_get(self.tree@, name@) == Some(TreeEntryV::Tree(t@)),
                Err(e) => match e@ {
                    crate::error::ErrorV::EntryNotFound(k) => k == name@ && !assoc_has(
                        self.tree@,
                        name@,
                    ),
                    crate::error::ErrorV::NotTree(k) => k == name@ && (assoc_get(
                        self.tree@,
                        name@,
                    ) matches Some(v) && !(v is Tree)),
                    _ => false,
                },
            },
    {
        self.tree.get_tree(name)
    }

    /// Places a copy of `obj` at the top level under `name`.
    pub fn add_object(&mut self, name: &str, obj: &SchemaObject) -> (r: Result<(), Error>)
        ensures
            r is Ok,
            final(self).tree@ == assoc_set(old(self).tree@, name@, TreeEntryV::Object(obj@)),
            final(self).schema == old(self).schema,
            final(self).version == old(self).version,
            final(self).comment == old(self).comment,
    {
        self.tree.add_object(name, obj)
    }

    /// Places a fresh empty subtree at the top level under `name`.
    pub fn add_tree(&mut self, name: &str) -> (r: Result<(), Error>)
        ensures
            r is Ok,
            final(self).tree@ == assoc_set(
                old(self).tree@,
                name@,
                TreeEntryV::Tree(Seq::<(Seq<char>, TreeEntryV)>::empty()),
            ),
            final(self).schema == old(self).schema,
            final(self).version == old(self).version,
            final(self).comment == old(self).comment,
    {
        self.tree.add_tree(name)
    }

    /// True when the top level holds a single object entry whose key is
    /// `name`.
    pub fn is_reducable(&self, name: &str) -> (r: bool)
        ensures
            r == spec_is_reducable(self.tree@, name@),
    {
        self.tree.is_reducable(name)
    }
}

} // verus!
