//! Naming normalizer.  Top level entries of `definitions` carry either a
//! bare Pascal-cased name, such as `StringDatatype`, or a compound key of
//! the form `<model-prefix><outer-ns>:<inner-ns>`, such as
//! `oscal-complete-oscal-ap:assessment-plan`.
//!
//! A bare name keeps its own spelling as the type name and its snake_case
//! form as the namespace.  A compound key is stripped of the fixed model
//! prefix and split at the colon; the two parts become snake_case namespace
//! segments, and the right part in PascalCase becomes the type name.

use vstd::prelude::*;
use crate::casing::{pascal_of, snake_of, to_pascal, to_snake};
use crate::text::{
    contains_char, is_prefix_of, lemma_split_char_len, split_char, split_on_char, starts_with,
};

verus! {

/// The fixed model prefix that starts every compound definition key.
pub const OSCAL_COMPLETE: &'static str = "oscal-complete-";

/// `s` with the fixed model prefix removed, when it starts with it.
pub open spec fn spec_strip_oscal(s: Seq<char>) -> Seq<char> {
    if is_prefix_of("oscal-complete-"@, s) {
        s.skip("oscal-complete-"@.len() as int)
    } else {
        s
    }
}

/// Strips the starting model prefix, if present.
pub fn strip_oscal(name: &str) -> (r: &str)
    ensures
        r@ == spec_strip_oscal(name@),
{
    if !starts_with(name, "oscal-complete-") {
        return name;
    }
    let plen = "oscal-complete-".unicode_len();
    let n = name.unicode_len();
    let r = name.substring_char(plen, n);
    proof {
        assert(r@ =~= spec_strip_oscal(name@));
    }
    r
}

/// The pieces of the stripped key, split at `:`.
pub open spec fn spec_name_parts(s: Seq<char>) -> Seq<Seq<char>> {
    split_char(spec_strip_oscal(s), ':')
}

/// Strips the model prefix and breaks the rest at each `:`.
pub fn name_parts(name: &str) -> (r: Vec<&str>)
    ensures
        r.deep_view() == spec_name_parts(name@),
{
    let stripped = strip_oscal(name);
    split_on_char(stripped, ':')
}

/// True when the key has the compound shape: it starts with the model
/// prefix and holds a `:` delimiter.
pub open spec fn spec_is_namespace(s: Seq<char>) -> bool {
    is_prefix_of("oscal-complete-"@, s) && s.contains(':')
}

/// True when `name` is a compound, namespace-bearing definition key.
pub fn is_namespace(name: &str) -> (r: bool)
    ensures
        r == spec_is_namespace(name@),
{
    starts_with(name, "oscal-complete-") && contains_char(name, ':')
}

/// A compound key with the model prefix stripped splits into at least two
/// parts at the colon: the prefix itself holds no `:`.
pub proof fn lemma_namespace_parts(s: Seq<char>)
    requires
        spec_is_namespace(s),
    ensures
        spec_name_parts(s).len() >= 2,
{
    reveal_strlit("oscal-complete-");
    let p = "oscal-complete-"@;
    let stripped = spec_strip_oscal(s);
    let w = choose|w: int| 0 <= w < s.len() && s[w] == ':';
    assert(forall|j: int| 0 <= j < p.len() ==> p[j] != ':');
    assert(s.take(p.len() as int) == p);
    if w < p.len() {
        assert(s[w] == s.take(p.len() as int)[w]);
        assert(false);
    }
    assert(stripped[w - p.len()] == s[w]);
    assert(stripped.contains(':'));
    lemma_split_char_len(stripped, ':');
}

/// The normalized placement of one definition key: the outer and inner
/// namespace segments and the type name.
#[derive(Debug, Clone, PartialEq)]
pub struct NamespaceEntry {
    pub left: String,
    pub right: String,
    pub rust: String,
}

impl NamespaceEntry {
    /// Normalizes a raw definition key.  A compound key yields its two parts
    /// in snake_case plus the Pascal-cased right part; a bare name yields an
    /// empty outer segment, its snake_case form, and the name unchanged.
    pub fn from(name: &str) -> (r: NamespaceEntry)
        ensures
            spec_is_namespace(name@) ==> r.left@ == snake_of(spec_name_parts(name@)[0])
                && r.right@ == snake_of(spec_name_parts(name@)[1]) && r.rust@ == pascal_of(
                spec_name_parts(name@)[1],
            ),
            !spec_is_namespace(name@) ==> r.left@ == Seq::<char>::empty() && r.right@ == snake_of(
                name@,
            ) && r.rust@ == name@,
    {
        if is_namespace(name) {
            proof {
                lemma_namespace_parts(name@);
            }
            let parts = name_parts(name);
            assert(parts@.len() == parts.deep_view().len());
            let left = to_snake(parts[0]);
            let right = to_snake(parts[1]);
            let rust = to_pascal(parts[1]);
            assert(parts[0int].deep_view() == spec_name_parts(name@)[0]);
            assert(parts[1int].deep_view() == spec_name_parts(name@)[1]);
            return NamespaceEntry { left, right, rust };
        }
        let empty = String::new();
        let right = to_snake(name);
        let rust = name.to_owned();
        proof {
            assert(empty@ =~= Seq::<char>::empty());
        }
        NamespaceEntry { left: empty, right, rust }
    }
}

/// `s` without one trailing pluralizing `s`, if it ends in one.
pub open spec fn spec_unplural(s: Seq<char>) -> Seq<char> {
    if s.len() > 0 && s[s.len() - 1] == 's' {
        s.take(s.len() - 1)
    } else {
        s
    }
}

/// Singularization used when deriving an array item's type name from the
/// plural property name.
pub trait UnPlural {
    /// The characters the singularization works over.
    spec fn chars_view(&self) -> Seq<char>;

    /// Strips one trailing `s`, if present.
    fn unplural(&self) -> (r: String)
        ensures
            r@ == spec_unplural(self.chars_view()),
    ;
}

impl UnPlural for &str {
    open spec fn chars_view(&self) -> Seq<char> {
        self@
    }

    fn unplural(&self) -> (r: String)
        ensures
            r@ == spec_unplural(self@),
    {
        let n = self.unicode_len();
        if n == 0 {
            return String::new();
        }
        if self.get_char(n - 1) == 's' {
            let head = self.substring_char(0, n - 1);
            assert(head@ =~= spec_unplural(self@));
            head.to_owned()
        } else {
            (*self).to_owned()
        }
    }
}

} // verus!
