//! Error taxonomy of the pipeline.  Structural errors and resolution errors
//! are fatal and abort a run; unhandled-but-well-formed shapes are skipped by
//! the tree builder without surfacing an error.

use vstd::prelude::*;

verus! {

/// A fatal error raised while parsing or resolving a schema document.
#[derive(Debug)]
pub enum Error {
    /// A JSON object was expected.
    ObjectExpected,
    /// A JSON string was expected.
    StringExpected,
    /// A JSON array was expected.
    ArrayExpected,
    /// The named attribute was absent from a map.
    AttributeNotFound(String),
    /// The document has no `definitions` member.
    NoDefinitions,
    /// An entry of an unexpected kind was found.
    UnexpectedEntry(String),
    /// An `anyOf`/`allOf` pair did not have the expected shape.
    MalformedAnyOf,
    /// The first `anyOf` member had no `$ref`.
    MissingAnyOfRef,
    /// The second `anyOf` member had no `enum`.
    MissingAnyOfEnum,
    /// An array property had no usable `items` shape.
    MalformedArray,
    /// A symbolic reference had no registered target.
    ResolverFailure,
    /// A namespace path could not be completed.
    IncompleteNamespace(String, String),
    /// The document `$id` held no recognizable version.
    VersionParse,
    /// A tree entry was present but was not an object.
    NotObject(String),
    /// A tree entry was present but was not a subtree.
    NotTree(String),
    /// A tree entry was absent.
    EntryNotFound(String),
}

/// The mathematical shape of an `Error`, with strings as character sequences.
pub enum ErrorV {
    ObjectExpected,
    StringExpected,
    ArrayExpected,
    AttributeNotFound(Seq<char>),
    NoDefinitions,
    UnexpectedEntry(Seq<char>),
    MalformedAnyOf,
    MissingAnyOfRef,
    MissingAnyOfEnum,
    MalformedArray,
    ResolverFailure,
    IncompleteNamespace(Seq<char>, Seq<char>),
    VersionParse,
    NotObject(Seq<char>),
    NotTree(Seq<char>),
    EntryNotFound(Seq<char>),
}

impl View for Error {
    type V = ErrorV;

    open spec fn view(&self) -> ErrorV {
        match self {
            Error::ObjectExpected => ErrorV::ObjectExpected,
            Error::StringExpected => ErrorV::StringExpected,
            Error::ArrayExpected => ErrorV::ArrayExpected,
            Error::AttributeNotFound(s) => ErrorV::AttributeNotFound(s@),
            Error::NoDefinitions => ErrorV::NoDefinitions,
            Error::UnexpectedEntry(s) => ErrorV::UnexpectedEntry(s@),
            Error::MalformedAnyOf => ErrorV::MalformedAnyOf,
            Error::MissingAnyOfRef => ErrorV::MissingAnyOfRef,
            Error::MissingAnyOfEnum => ErrorV::MissingAnyOfEnum,
            Error::MalformedArray => ErrorV::MalformedArray,
            Error::ResolverFailure => ErrorV::ResolverFailure,
            Error::IncompleteNamespace(a, b) => ErrorV::IncompleteNamespace(a@, b@),
            Error::VersionParse => ErrorV::VersionParse,
            Error::NotObject(s) => ErrorV::NotObject(s@),
            Error::NotTree(s) => ErrorV::NotTree(s@),
            Error::EntryNotFound(s) => ErrorV::EntryNotFound(s@),
        }
    }
}

} // verus!
