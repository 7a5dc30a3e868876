//! One entry of the schema tree: a concrete object, or a subtree of
//! further namespaces.

use vstd::prelude::*;
use crate::error::Error;
use crate::schema_object::{SchemaObject, SchemaObjectV};
use crate::schema_tree::SchemaTree;

verus! {

/// A node of the schema tree.
pub enum TreeEntry {
    Object(Box<SchemaObject>),
    Tree(SchemaTree),
}

/// The mathematical shape of a tree node: an object, or an ordered mapping
/// from segment name to child node.
#[verifier::ext_equal]
pub enum TreeEntryV {
    Object(SchemaObjectV),
    Tree(Seq<(Seq<char>, TreeEntryV)>),
}

/// The shape of one entry.
pub open spec fn entry_view(e: TreeEntry) -> TreeEntryV
    decreases e,
{
    match e {
        TreeEntry::Object(obj) => TreeEntryV::Object(obj@),
        TreeEntry::Tree(t) => TreeEntryV::Tree(entries_view(t.entries@)),
    }
}

/// The shapes of an ordered entry list.
pub open spec fn entries_view(s: Seq<(String, TreeEntry)>) -> Seq<(Seq<char>, TreeEntryV)>
    decreases s,
{
    if s.len() == 0 {
        Seq::empty()
    } else {
        entries_view(s.drop_last()).push((s.last().0@, entry_view(s.last().1)))
    }
}

pub proof fn lemma_entries_view(s: Seq<(String, TreeEntry)>)
    ensures
        entries_view(s).len() == s.len(),
        forall|i: int| 0 <= i < s.len() ==> entries_view(s)[i] == ((#[trigger] s[i]).0@, entry_view(
            s[i].1,
        )),
    decreases s,
{
    if s.len() > 0 {
        lemma_entries_view(s.drop_last());
        assert forall|i: int| 0 <= i < s.len() implies entries_view(s)[i] == ((
        #[trigger] s[i]).0@, entry_view(s[i].1)) by {
            if i < s.len() - 1 {
                assert(s.drop_last()[i] == s[i]);
                assert(entries_view(s)[i] == entries_view(s.drop_last())[i]);
            } else {
                assert(s[i] == s.last());
            }
        }
    }
}

impl View for TreeEntry {
    type V = TreeEntryV;

    open spec fn view(&self) -> TreeEntryV {
        entry_view(*self)
    }
}

impl TreeEntry {
    /// True when the entry is a concrete object.
    pub fn is_object(&self) -> (r: bool)
        ensures
            r == (self@ is Object),
    {
        match self {
            TreeEntry::Object(_) => true,
            _ => false,
        }
    }

    /// True when the entry is a subtree.
    pub fn is_tree(&self) -> (r: bool)
        ensures
            r == (self@ is Tree),
    {
        match self {
            TreeEntry::Tree(_) => true,
            _ => false,
        }
    }

    /// The object held by the entry, or an error.
    pub fn as_object(&self) -> (r: Result<&SchemaObject, Error>)
        ensures
            match r {
                Ok(obj) => self@ == TreeEntryV::Object(obj@),
                Err(e) => !(self@ is Object) && e@ == crate::error::ErrorV::NotObject(
                    Seq::<char>::empty(),
                ),
            },
    {
        match self {
            TreeEntry::Object(obj) => Ok(obj),
            _ => {
                let r = Err(Error::NotObject(String::new()));
                r
            },
        }
    }

    /// The subtree held by the entry, or an error.
    pub fn as_tree(&self) -> (r: Result<&SchemaTree, Error>)
        ensures
            match r {
                Ok(t) => self@ == TreeEntryV::Tree(t@),
                Err(e) => !(self@ is Tree) && e@ == crate::error::ErrorV::NotTree(
                    Seq::<char>::empty(),
                ),
            },
    {
        match self {
            TreeEntry::Tree(t) => Ok(t),
            _ => Err(Error::NotTree(String::new())),
        }
    }
}

} // verus!
