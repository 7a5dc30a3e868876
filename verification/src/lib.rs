//! Core of an OSCAL JSON-schema model generator: naming normalization,
//! a type registry, a schema tree builder, and the namespace scoping
//! engine that computes import groups for each generated unit.

pub mod any_of;
pub mod assoc;
pub mod casing;
pub mod data_type;
pub mod error;
pub mod gen;
pub mod json;
pub mod name_space;
pub mod names;
pub mod number_type;
pub mod parse;
pub mod property;
pub mod resolver;
pub mod schema;
pub mod schema_object;
pub mod schema_tree;
pub mod schema_type;
pub mod string_type;
pub mod text;
pub mod tree_entry;
pub mod type_ref;
