//! The tree of namespaces built from a document's definitions: an ordered
//! mapping from segment name to object or subtree, with create-or-get
//! insertion of intermediate subtrees.

use vstd::prelude::*;
use crate::assoc::{
    assoc_first_index, assoc_get, assoc_has, assoc_set, lemma_assoc_first_index_absent,
    lemma_assoc_first_index_found, lemma_assoc_first_index_range,
};
use crate::error::{Error, ErrorV};
use crate::schema_object::SchemaObject;
use crate::text::str_eq;
use crate::tree_entry::{entries_view, lemma_entries_view, TreeEntry, TreeEntryV};

verus! {

/// The ordered mapping at one level of the namespace tree.
pub struct SchemaTree {
    pub entries: Vec<(String, TreeEntry)>,
}

/// The shape of one tree level.
pub type SchemaTreeV = Seq<(Seq<char>, TreeEntryV)>;

impl View for SchemaTree {
    type V = SchemaTreeV;

    open spec fn view(&self) -> SchemaTreeV {
        entries_view(self.entries@)
    }
}

/// A subtree is reducible exactly when it holds one entry, that entry is an
/// object, and the entry's key equals the subtree's own name.
pub open spec fn spec_is_reducable(t: SchemaTreeV, name: Seq<char>) -> bool {
    t.len() == 1 && t[0].1 is Object && t[0].0 == name
}

/// A subtree with two or more entries, or whose single entry's key differs
/// from the subtree's name, or whose single entry is itself a subtree, is
/// never reducible.
pub proof fn lemma_reduction_needs_matching_object(t: SchemaTreeV, name: Seq<char>)
    ensures
        t.len() != 1 ==> !spec_is_reducable(t, name),
        t.len() == 1 && t[0].0 != name ==> !spec_is_reducable(t, name),
        t.len() == 1 && t[0].1 is Tree ==> !spec_is_reducable(t, name),
{
}

impl SchemaTree {
    /// An empty level.
    pub fn new() -> (r: Self)
        ensures
            r@ == Seq::<(Seq<char>, TreeEntryV)>::empty(),
    {
        SchemaTree { entries: Vec::new() }
    }

    /// The number of entries.
    pub fn len(&self) -> (r: usize)
        ensures
            r == self@.len(),
    {
        proof {
            lemma_entries_view(self.entries@);
        }
        self.entries.len()
    }

    /// The entry at position `i`.
    pub fn entry_at(&self, i: usize) -> (r: &(String, TreeEntry))
        requires
            i < self@.len(),
        ensures
            r.0@ == self@[i as int].0,
            r.1@ == self@[i as int].1,
    {
        proof {
            lemma_entries_view(self.entries@);
        }
        &self.entries[i]
    }

    /// The keys, in entry order.
    pub fn keys(&self) -> (r: Vec<String>)
        ensures
            r.deep_view() == Seq::new(self@.len(), |i: int| self@[i].0),
    {
        proof {
            lemma_entries_view(self.entries@);
        }
        let n = self.entries.len();
        let mut out: Vec<String> = Vec::new();
        let mut i: usize = 0;
        while i < n
            invariant
                n == self.entries@.len(),
                n == self@.len(),
                0 <= i <= n,
                out@.len() == i,
                forall|j: int| 0 <= j < i ==> (#[trigger] out@[j])@ == self@[j].0,
                forall|j: int| 0 <= j < n ==> (#[trigger] self@[j]).0 == self.entries@[j].0@,
            decreases n - i,
        {
            out.push(self.entries[i].0.clone());
            i += 1;
        }
        proof {
            assert(out.deep_view() =~= Seq::new(self@.len(), |i: int| self@[i].0));
        }
        out
    }

    /// The position of the entry named `key`, if present.
    fn find_index(&self, key: &str) -> (r: Option<usize>)
        ensures
            match r {
                Some(i) => i as int == assoc_first_index(self@, key@) && i < self@.len(),
                None => assoc_first_index(self@, key@) == -1,
            },
    {
        proof {
            lemma_entries_view(self.entries@);
        }
        let n = self.entries.len();
        let mut i: usize = 0;
        while i < n
            invariant
                n == self.entries@.len(),
                n == self@.len(),
                0 <= i <= n,
                forall|j: int| 0 <= j < i ==> (#[trigger] self@[j]).0 != key@,
                forall|j: int| 0 <= j < n ==> (#[trigger] self@[j]).0 == self.entries@[j].0@,
            decreases n - i,
        {
            if str_eq(self.entries[i].0.as_str(), key) {
                proof {
                    lemma_assoc_first_index_found(self@, key@, i as int);
                }
                return Some(i);
            }
            i += 1;
        }
        proof {
            lemma_assoc_first_index_absent(self@, key@);
        }
        None
    }

    /// True when an entry named `key` is present.
    pub fn has(&self, key: &str) -> (r: bool)
        ensures
            r == assoc_has(self@, key@),
    {
        self.find_index(key).is_some()
    }

    /// The entry named `name`, or an error naming it.
    pub fn get(&self, name: &str) -> (r: Result<&TreeEntry, Error>)
        ensures
            match r {
                Ok(e) => assoc_get(self@, name@) == Some(e@),
                Err(e) => !assoc_has(self@, name@) && e@ == ErrorV::EntryNotFound(name@),
            },
    {
        match self.find_index(name) {
            Some(i) => {
                proof {
                    lemma_entries_view(self.entries@);
                }
                Ok(&self.entries[i].1)
            },
            None => Err(Error::EntryNotFound(name.to_owned())),
        }
    }

    /// The object named `name`, or the error saying what was found instead.
    pub fn get_object(&self, name: &str) -> (r: Result<&SchemaObject, Error>)
        ensures
            match r {
                Ok(obj) => assoc_get(self@, name@) == Some(TreeEntryV::Object(obj@)),
                Err(e) => match e@ {
                    ErrorV::EntryNotFound(k) => k == name@ && !assoc_has(self@, name@),
                    ErrorV::NotObject(k) => k == name@ && (assoc_get(self@, name@) matches Some(v)
                        && !(v is Object)),
                    _ => false,
                },
            },
    {
        let entry = self.get(name)?;
        match entry.as_object() {
            Ok(obj) => Ok(obj),
            Err(_) => Err(Error::NotObject(name.to_owned())),
        }
    }

    /// The subtree named `name`, or the error saying what was found instead.
    pub fn get_tree(&self, name: &str) -> (r: Result<&SchemaTree, Error>)
        ensures
            match r {
                Ok(t) => assoc_get(self@, name@) == Some(TreeEntryV::Tree(t@)),
                Err(e) => match e@ {
                    ErrorV::EntryNotFound(k) => k == name@ && !assoc_has(self@, name@),
                    ErrorV::NotTree(k) => k == name@ && (assoc_get(self@, name@) matches Some(v)
                        && !(v is Tree)),
                    _ => false,
                },
            },
    {
        let entry = self.get(name)?;
        match entry.as_tree() {
            Ok(t) => Ok(t),
            Err(_) => Err(Error::NotTree(name.to_owned())),
        }
    }

    /// Inserts `entry` under `name`: in place when the key exists, at the
    /// end otherwise.
    fn set_entry(&mut self, name: &str, entry: TreeEntry)
        ensures
            final(self)@ == assoc_set(old(self)@, name@, entry@),
    {
        let ghost oldv = self@;
        let ghost entryv = entry@;
        match self.find_index(name) {
            Some(i) => {
                proof {
                    lemma_entries_view(self.entries@);
                }
                let ghost olde = self.entries@;
                let pair = (name.to_owned(), entry);
                let ghost pairv = pair;
                self.entries[i] = pair;
                proof {
                    assert(self.entries@ == olde.update(i as int, pairv));
                    lemma_entries_view(self.entries@);
                    lemma_entries_view(olde);
                    assert forall|j: int| 0 <= j < oldv.len() && j != i implies self@[j]
                        == oldv[j] by {
                        assert(self.entries@[j] == olde[j]);
                    }
                    assert(self@[i as int] == (name@, entryv));
                    assert(self@ =~= assoc_set(oldv, name@, entryv));
                }
            },
            None => {
                let ghost olde = self.entries@;
                let pair = (name.to_owned(), entry);
                let ghost pairv = pair;
                self.entries.push(pair);
                proof {
                    assert(self.entries@ == olde.push(pairv));
                    lemma_entries_view(self.entries@);
                    lemma_entries_view(olde);
                    assert forall|j: int| 0 <= j < oldv.len() implies self@[j] == oldv[j] by {
                        assert(self.entries@[j] == olde[j]);
                    }
                    assert(self@[oldv.len() as int] == (name@, entryv));
                    assert(self@ =~= assoc_set(oldv, name@, entryv));
                }
            },
        }
    }

    /// Places a copy of `obj` under `name`.
    pub fn add_object(&mut self, name: &str, obj: &SchemaObject) -> (r: Result<(), Error>)
        ensures
            r is Ok,
            final(self)@ == assoc_set(old(self)@, name@, TreeEntryV::Object(obj@)),
    {
        self.set_entry(name, TreeEntry::Object(Box::new(obj.clone())));
        Ok(())
    }

    /// Places a fresh empty subtree under `name`.
    pub fn add_tree(&mut self, name: &str) -> (r: Result<(), Error>)
        ensures
            r is Ok,
            final(self)@ == assoc_set(
                old(self)@,
                name@,
                TreeEntryV::Tree(Seq::<(Seq<char>, TreeEntryV)>::empty()),
            ),
    {
        self.set_entry(name, TreeEntry::Tree(SchemaTree::new()));
        Ok(())
    }

    /// True when this level holds a single object entry whose key is `name`.
    pub fn is_reducable(&self, name: &str) -> (r: bool)
        ensures
            r == spec_is_reducable(self@, name@),
    {
        if self.len() != 1 {
            return false;
        }
        let entry = self.entry_at(0);
        if entry.1.is_object() {
            return str_eq(entry.0.as_str(), name);
        }
        false
    }

    /// Removes and returns the subtree under `name` together with its
    /// position, or a fresh empty subtree at the end position when the key
    /// is absent.  An object under `name` is an error, and the tree is left
    /// unchanged.
    pub fn take_tree(&mut self, name: &str) -> (r: Result<(usize, SchemaTree), Error>)
        ensures
            match r {
                Ok((i, t)) => {
                    if assoc_has(old(self)@, name@) {
                        i as int == assoc_first_index(old(self)@, name@) && assoc_get(
                            old(self)@,
                            name@,
                        ) == Some(TreeEntryV::Tree(t@)) && final(self)@ == old(self)@.remove(
                            i as int,
                        )
                    } else {
                        i as int == old(self)@.len() && t@ =~= Seq::<
                            (Seq<char>, TreeEntryV),
                        >::empty() && final(self)@ == old(self)@
                    }
                },
                Err(e) => e@ == ErrorV::NotTree(name@) && (assoc_get(old(self)@, name@)
                    matches Some(v) && !(v is Tree)) && final(self)@ == old(self)@,
            },
    {
        let ghost oldv = self@;
        match self.find_index(name) {
            Some(i) => {
                proof {
                    lemma_entries_view(self.entries@);
                    lemma_assoc_first_index_range(oldv, name@);
                }
                let ghost olde = self.entries@;
                let removed = self.entries.remove(i);
                let ghost removedv = removed;
                proof {
                    olde.remove_ensures(i as int);
                }
                match removed {
                    (_key, TreeEntry::Tree(t)) => {
                        proof {
                            lemma_entries_view(self.entries@);
                            lemma_entries_view(olde);
                            oldv.remove_ensures(i as int);
                            assert forall|j: int| 0 <= j < oldv.len() - 1 implies self@[j]
                                == oldv.remove(i as int)[j] by {
                                if j < i {
                                    assert(self.entries@[j] == olde[j]);
                                } else {
                                    assert(self.entries@[j] == olde[j + 1]);
                                }
                            }
                            assert(self@ =~= oldv.remove(i as int));
                        }
                        Ok((i, t))
                    },
                    (_key, entry) => {
                        // Put the entry back where it was.
                        self.entries.insert(i, (_key, entry));
                        proof {
                            assert((_key, entry) == removedv);
                            assert(self.entries@ == olde.remove(i as int).insert(
                                i as int,
                                removedv,
                            ));
                            olde.remove(i as int).insert_ensures(i as int, removedv);
                            assert forall|j: int| 0 <= j < olde.len() implies self.entries@[j]
                                == olde[j] by {
                                if j < i {
                                    assert(self.entries@[j] == olde.remove(i as int)[j]);
                                } else if j == i {
                                    assert(self.entries@[j] == removedv);
                                } else {
                                    assert(self.entries@[j] == olde.remove(i as int)[j - 1]);
                                }
                            }
                            assert(self.entries@ =~= olde);
                            assert(self@ == oldv);
                        }
                        Err(Error::NotTree(name.to_owned()))
                    },
                }
            },
            None => {
                proof {
                    lemma_entries_view(self.entries@);
                }
                Ok((self.entries.len(), SchemaTree::new()))
            },
        }
    }

    /// Inserts `t` as a subtree named `name` at position `i`.
    pub fn put_tree(&mut self, i: usize, name: &str, t: SchemaTree)
        requires
            i <= old(self)@.len(),
        ensures
            final(self)@ == old(self)@.insert(i as int, (name@, TreeEntryV::Tree(t@))),
    {
        proof {
            lemma_entries_view(self.entries@);
        }
        let ghost oldv = self@;
        let ghost olde = self.entries@;
        let ghost tv = t@;
        let pair = (name.to_owned(), TreeEntry::Tree(t));
        let ghost pairv = pair;
        self.entries.insert(i, pair);
        proof {
            assert(self.entries@ == olde.insert(i as int, pairv));
            olde.insert_ensures(i as int, pairv);
            lemma_entries_view(self.entries@);
            lemma_entries_view(olde);
            oldv.insert_ensures(i as int, (name@, TreeEntryV::Tree(tv)));
            assert forall|j: int| 0 <= j < self@.len() implies self@[j] == oldv.insert(
                i as int,
                (name@, TreeEntryV::Tree(tv)),
            )[j] by {
                if j < i {
                    assert(self.entries@[j] == olde[j]);
                } else if j == i {
                    assert(self.entries@[j] == pairv);
                } else {
                    assert(self.entries@[j] == olde[j - 1]);
                }
            }
            assert(self@ =~= oldv.insert(i as int, (name@, TreeEntryV::Tree(tv))));
        }
    }
}

} // verus!
