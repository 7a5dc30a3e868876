//! The namespace scoping engine.  While one generation unit's properties
//! are described, every type descriptor they resolve to is recorded in a
//! `Namespace` accumulator; the accumulator then yields the unit's import
//! groups: the shared built-ins line, the fully-qualified group, and the
//! ancestor/self-relative group.

use core::cmp::Ordering;
use vstd::prelude::*;
use crate::assoc::{
    assoc_first_index, assoc_get, assoc_has, lemma_assoc_first_index_absent,
    lemma_assoc_first_index_found, lemma_assoc_first_index_range,
};
use crate::schema_type::{SchemaType, SchemaTypeV};
use crate::text::{
    join_strings, lemma_lex_trans, lemma_lex_trichotomy, lemma_split_path_valid, lex_lt,
    spec_join, split_on_sep, split_path, str_eq, str_lt, valid_chars,
};

verus! {

/// One node of the usage accumulator: the names used directly at this
/// path, and the child namespaces, ordered by segment name.  `add` keeps
/// the children in strictly ascending key order (see `spec_ordered`); the
/// fields are public, so a hand-built value must keep that order itself
/// for the ordering guarantees to apply.
pub struct Namespace {
    pub name: String,
    pub entries: Vec<String>,
    pub subs: Vec<(String, Namespace)>,
}

/// The mathematical shape of a `Namespace`.
#[verifier::ext_equal]
pub struct NamespaceV {
    pub name: Seq<char>,
    pub entries: Seq<Seq<char>>,
    pub subs: Seq<(Seq<char>, NamespaceV)>,
}

/// The shape of one accumulator node.
pub open spec fn ns_view(n: Namespace) -> NamespaceV
    decreases n,
{
    NamespaceV { name: n.name@, entries: n.entries.deep_view(), subs: subs_view(n.subs@) }
}

/// The shapes of an ordered child list.
pub open spec fn subs_view(s: Seq<(String, Namespace)>) -> Seq<(Seq<char>, NamespaceV)>
    decreases s,
{
    if s.len() == 0 {
        Seq::empty()
    } else {
        subs_view(s.drop_last()).push((s.last().0@, ns_view(s.last().1)))
    }
}

pub proof fn lemma_subs_view(s: Seq<(String, Namespace)>)
    ensures
        subs_view(s).len() == s.len(),
        forall|i: int| 0 <= i < s.len() ==> subs_view(s)[i] == ((#[trigger] s[i]).0@, ns_view(
            s[i].1,
        )),
    decreases s,
{
    if s.len() > 0 {
        lemma_subs_view(s.drop_last());
        assert forall|i: int| 0 <= i < s.len() implies subs_view(s)[i] == ((#[trigger] s[i]).0@,
        ns_view(s[i].1)) by {
            if i < s.len() - 1 {
                assert(s.drop_last()[i] == s[i]);
                assert(subs_view(s)[i] == subs_view(s.drop_last())[i]);
            } else {
                assert(s[i] == s.last());
            }
        }
    }
}

impl View for Namespace {
    type V = NamespaceV;

    open spec fn view(&self) -> NamespaceV {
        ns_view(*self)
    }
}

/// How a path relates to an enclosing one.  An empty path is the ancestor
/// of everything.  Otherwise the two paths' segments are compared pairwise
/// as far as both reach: if every pair agrees, the shorter path is the
/// ancestor (`Less`), equal lengths are `Equal`, and the longer path is a
/// descendant (`Greater`); if any pair disagrees, the paths are unrelated.
pub open spec fn spec_cmp(ns: Seq<char>, super_ns: Seq<char>) -> Option<Ordering> {
    if ns.len() == 0 {
        Some(Ordering::Less)
    } else {
        let a = split_path(ns);
        let b = split_path(super_ns);
        if forall|i: int| 0 <= i < a.len() && i < b.len() ==> #[trigger] a[i] == b[i] {
            if a.len() < b.len() {
                Some(Ordering::Less)
            } else if a.len() == b.len() {
                Some(Ordering::Equal)
            } else {
                Some(Ordering::Greater)
            }
        } else {
            None
        }
    }
}

/// A non-empty path always relates to itself as `Equal`.  The empty path
/// compares as ancestor even of itself, by construction.
pub proof fn lemma_cmp_reflexive(p: Seq<char>)
    requires
        p.len() > 0,
    ensures
        spec_cmp(p, p) == Some(Ordering::Equal),
{
}

/// The empty path is the ancestor of every path.
pub proof fn lemma_cmp_empty_ancestor(p: Seq<char>)
    ensures
        spec_cmp(Seq::<char>::empty(), p) == Some(Ordering::Less),
{
}


/// Where a new key goes in an ordered child list: before the first child
/// whose key orders after it.
pub open spec fn spec_insert_pos(s: Seq<(Seq<char>, NamespaceV)>, key: Seq<char>) -> int
    decreases s.len(),
{
    if s.len() == 0 {
        0
    } else if lex_lt(key, s[0].0) {
        0
    } else {
        1 + spec_insert_pos(s.skip(1), key)
    }
}

pub proof fn lemma_insert_pos_at(s: Seq<(Seq<char>, NamespaceV)>, key: Seq<char>, k: int)
    requires
        0 <= k <= s.len(),
        forall|j: int| 0 <= j < k ==> !lex_lt(key, (#[trigger] s[j]).0),
        k < s.len() ==> lex_lt(key, s[k].0),
    ensures
        spec_insert_pos(s, key) == k,
    decreases s.len(),
{
    if s.len() > 0 && !lex_lt(key, s[0].0) {
        assert(k > 0);
        lemma_insert_pos_at(s.skip(1), key, k - 1);
    }
}

pub proof fn lemma_insert_pos_range(s: Seq<(Seq<char>, NamespaceV)>, key: Seq<char>)
    ensures
        0 <= spec_insert_pos(s, key) <= s.len(),
    decreases s.len(),
{
    if s.len() > 0 && !lex_lt(key, s[0].0) {
        lemma_insert_pos_range(s.skip(1), key);
    }
}

/// What recording one more used name at the path held in `segs` (stored
/// innermost-last) does to an accumulator node: with no segments left the
/// name joins this node's entries unless already present; otherwise the
/// walk descends into the child named by the last segment, creating it in
/// key order when absent.
pub open spec fn spec_add(n: NamespaceV, segs: Seq<Seq<char>>, name: Seq<char>) -> NamespaceV
    decreases segs.len(),
{
    if segs.len() == 0 {
        if n.entries.contains(name) {
            n
        } else {
            NamespaceV { entries: n.entries.push(name), ..n }
        }
    } else {
        let branch = segs.last();
        let rest = segs.drop_last();
        let i = assoc_first_index(n.subs, branch);
        if i >= 0 {
            NamespaceV { subs: n.subs.update(i, (branch, spec_add(n.subs[i].1, rest, name))), ..n }
        } else {
            let sub0 = NamespaceV {
                name: branch,
                entries: Seq::<Seq<char>>::empty(),
                subs: Seq::<(Seq<char>, NamespaceV)>::empty(),
            };
            let sub = spec_add(sub0, rest, name);
            NamespaceV {
                subs: n.subs.insert(spec_insert_pos(n.subs, branch), (branch, sub)),
                ..n
            }
        }
    }
}


pub proof fn lemma_insert_pos_props(s: Seq<(Seq<char>, NamespaceV)>, key: Seq<char>)
    ensures
        forall|j: int| 0 <= j < spec_insert_pos(s, key) ==> !lex_lt(key, (#[trigger] s[j]).0),
        spec_insert_pos(s, key) < s.len() ==> lex_lt(key, s[spec_insert_pos(s, key)].0),
    decreases s.len(),
{
    lemma_insert_pos_range(s, key);
    if s.len() > 0 && !lex_lt(key, s[0].0) {
        lemma_insert_pos_props(s.skip(1), key);
        lemma_insert_pos_range(s.skip(1), key);
        let pos = spec_insert_pos(s, key);
        assert(pos == 1 + spec_insert_pos(s.skip(1), key));
        assert forall|j: int| 0 <= j < pos implies !lex_lt(key, (#[trigger] s[j]).0) by {
            if j >= 1 {
                assert(s[j] == s.skip(1)[j - 1]);
                assert(!lex_lt(key, s.skip(1)[j - 1].0));
            }
        }
        if pos < s.len() {
            assert(s[pos] == s.skip(1)[pos - 1]);
        }
    }
}

/// True when the children's keys are strictly ordered and are real
/// character strings.
pub open spec fn spec_sorted_subs(s: Seq<(Seq<char>, NamespaceV)>) -> bool {
    (forall|i: int, j: int|
        0 <= i < j < s.len() ==> lex_lt((#[trigger] s[i]).0, (#[trigger] s[j]).0)) && (forall|
        i: int,
    | 0 <= i < s.len() ==> valid_chars((#[trigger] s[i]).0))
}

/// True when every node of the accumulator keeps its children strictly
/// ordered by segment name.
pub open spec fn spec_ordered(n: NamespaceV) -> bool
    decreases n, 1int,
{
    spec_sorted_subs(n.subs) && spec_ordered_subs(n.subs)
}

pub open spec fn spec_ordered_subs(s: Seq<(Seq<char>, NamespaceV)>) -> bool
    decreases s, 0int,
{
    if s.len() == 0 {
        true
    } else {
        spec_ordered(s[0].1) && spec_ordered_subs(s.skip(1))
    }
}

pub proof fn lemma_ordered_subs_index(s: Seq<(Seq<char>, NamespaceV)>, i: int)
    requires
        spec_ordered_subs(s),
        0 <= i < s.len(),
    ensures
        spec_ordered(s[i].1),
    decreases s.len(),
{
    if i > 0 {
        lemma_ordered_subs_index(s.skip(1), i - 1);
        assert(s.skip(1)[i - 1] == s[i]);
    }
}

pub proof fn lemma_ordered_subs_pointwise(s: Seq<(Seq<char>, NamespaceV)>)
    requires
        forall|i: int| 0 <= i < s.len() ==> spec_ordered((#[trigger] s[i]).1),
    ensures
        spec_ordered_subs(s),
    decreases s.len(),
{
    if s.len() > 0 {
        assert(forall|i: int| 0 <= i < s.skip(1).len() ==> #[trigger] s.skip(1)[i] == s[i + 1]);
        lemma_ordered_subs_pointwise(s.skip(1));
    }
}

/// Recording a name keeps every node's children strictly ordered by
/// segment name: the ordering of the import groups is a function of the
/// sorted segment names, never of the order in which usages were
/// discovered.
pub proof fn lemma_add_keeps_children_ordered(n: NamespaceV, segs: Seq<Seq<char>>, name: Seq<char>)
    requires
        spec_ordered(n),
        forall|i: int| 0 <= i < segs.len() ==> valid_chars(#[trigger] segs[i]),
    ensures
        spec_ordered(spec_add(n, segs, name)),
    decreases segs.len(),
{
    if segs.len() == 0 {
        assert(spec_add(n, segs, name).subs == n.subs);
    } else {
        let branch = segs.last();
        let rest = segs.drop_last();
        assert(valid_chars(branch));
        assert(forall|i: int| 0 <= i < rest.len() ==> #[trigger] rest[i] == segs[i]);
        let i = assoc_first_index(n.subs, branch);
        lemma_assoc_first_index_range(n.subs, branch);
        if i >= 0 {
            lemma_ordered_subs_index(n.subs, i);
            lemma_add_keeps_children_ordered(n.subs[i].1, rest, name);
            let sub2 = spec_add(n.subs[i].1, rest, name);
            let subs2 = n.subs.update(i, (branch, sub2));
            assert(n.subs[i].0 == branch);
            assert(forall|j: int| 0 <= j < subs2.len() ==> (#[trigger] subs2[j]).0 == n.subs[j].0);
            assert(spec_sorted_subs(subs2));
            assert forall|j: int| 0 <= j < subs2.len() implies spec_ordered(
                (#[trigger] subs2[j]).1,
            ) by {
                if j != i {
                    lemma_ordered_subs_index(n.subs, j);
                }
            }
            lemma_ordered_subs_pointwise(subs2);
        } else {
            crate::assoc::lemma_assoc_first_index_neg(n.subs, branch);
            let sub0 = NamespaceV {
                name: branch,
                entries: Seq::<Seq<char>>::empty(),
                subs: Seq::<(Seq<char>, NamespaceV)>::empty(),
            };
            assert(spec_ordered(sub0)) by {
                assert(spec_ordered_subs(sub0.subs));
            }
            lemma_add_keeps_children_ordered(sub0, rest, name);
            let sub = spec_add(sub0, rest, name);
            let pos = spec_insert_pos(n.subs, branch);
            lemma_insert_pos_range(n.subs, branch);
            lemma_insert_pos_props(n.subs, branch);
            let subs2 = n.subs.insert(pos, (branch, sub));
            n.subs.insert_ensures(pos, (branch, sub));
            // Keys strictly before the insertion point order before the new
            // one, keys at or after it order after.
            assert forall|j: int| 0 <= j < pos implies lex_lt(n.subs[j].0, branch) by {
                lemma_lex_trichotomy(n.subs[j].0, branch);
            }
            assert forall|j: int| pos <= j < n.subs.len() implies lex_lt(branch, n.subs[j].0) by {
                if j > pos {
                    lemma_lex_trans(branch, n.subs[pos].0, n.subs[j].0);
                }
            }
            assert forall|a: int, b: int| 0 <= a < b < subs2.len() implies lex_lt(
                (#[trigger] subs2[a]).0,
                (#[trigger] subs2[b]).0,
            ) by {
                let a0 = if a < pos { n.subs[a] } else { n.subs[a - 1] };
                let b0 = if b < pos { n.subs[b] } else { n.subs[b - 1] };
                if a < pos {
                    assert(subs2[a] == n.subs[a]);
                } else if a == pos {
                    assert(subs2[a] == (branch, sub));
                } else {
                    assert(subs2[a] == n.subs[a - 1]);
                }
                if b < pos {
                    assert(subs2[b] == n.subs[b]);
                } else if b == pos {
                    assert(subs2[b] == (branch, sub));
                } else {
                    assert(subs2[b] == n.subs[b - 1]);
                }
            }
            assert(forall|j: int| 0 <= j < subs2.len() ==> valid_chars((#[trigger] subs2[j]).0))
                by {
                assert forall|j: int| 0 <= j < subs2.len() implies valid_chars(
                    (#[trigger] subs2[j]).0,
                ) by {
                    if j < pos {
                        assert(subs2[j] == n.subs[j]);
                    } else if j == pos {
                        assert(subs2[j] == (branch, sub));
                    } else {
                        assert(subs2[j] == n.subs[j - 1]);
                    }
                }
            }
            assert forall|j: int| 0 <= j < subs2.len() implies spec_ordered(
                (#[trigger] subs2[j]).1,
            ) by {
                if j < pos {
                    assert(subs2[j] == n.subs[j]);
                    lemma_ordered_subs_index(n.subs, j);
                } else if j == pos {
                    assert(subs2[j] == (branch, sub));
                } else {
                    assert(subs2[j] == n.subs[j - 1]);
                    lemma_ordered_subs_index(n.subs, j - 1);
                }
            }
            lemma_ordered_subs_pointwise(subs2);
            assert(spec_sorted_subs(subs2));
        }
    }
}

/// What recording a resolved descriptor does: nothing for a descriptor
/// with an empty namespace recorded at the root (a native type), else an
/// `spec_add` walk along the descriptor's path segments.
pub open spec fn spec_add_type(n: NamespaceV, t: SchemaTypeV) -> NamespaceV {
    if n.name.len() == 0 && t.ns.len() == 0 {
        n
    } else {
        spec_add(n, split_path(t.ns).reverse(), t.name)
    }
}


/// Recording a descriptor whose namespace is a real string keeps every
/// node's children strictly ordered by segment name.
pub proof fn lemma_add_type_keeps_children_ordered(n: NamespaceV, t: SchemaTypeV)
    requires
        spec_ordered(n),
        valid_chars(t.ns),
    ensures
        spec_ordered(spec_add_type(n, t)),
{
    if !(n.name.len() == 0 && t.ns.len() == 0) {
        lemma_split_path_valid(t.ns);
        let parts = split_path(t.ns);
        let segs = parts.reverse();
        assert forall|i: int| 0 <= i < segs.len() implies valid_chars(#[trigger] segs[i]) by {
            assert(segs[i] == parts[parts.len() - 1 - i]);
        }
        lemma_add_keeps_children_ordered(n, segs, t.name);
    }
}


/// The shared built-ins import body: the names recorded under the
/// reserved built-ins child, bare for a single name and brace-grouped
/// otherwise.
pub open spec fn spec_use_types(n: NamespaceV) -> Seq<char> {
    let e = match assoc_get(n.subs, "oscal_types"@) {
        Some(t) => t.entries,
        None => Seq::<Seq<char>>::empty(),
    };
    if e.len() == 1 {
        e[0]
    } else {
        "{ "@ + spec_join(e, ", "@) + " }"@
    }
}

/// The fully-qualified import text contributed by `n`, whose own path is
/// `parent_ns` extended by `n`'s name.  A node standing exactly at the
/// (non-empty) context namespace contributes nothing; otherwise its own
/// names and its children's non-empty contributions, brace-grouped when
/// more than one, prefixed by the node's segment name.
pub open spec fn spec_use_crates(n: NamespaceV, super_ns: Seq<char>, parent_ns: Seq<char>) -> Seq<
    char,
>
    decreases n, 1int,
{
    let ns = if parent_ns.len() == 0 {
        n.name
    } else {
        parent_ns + "::"@ + n.name
    };
    if super_ns.len() > 0 && super_ns == ns {
        Seq::empty()
    } else {
        let entry_part: Seq<Seq<char>> = if n.entries.len() > 0 {
            seq![spec_join(n.entries, ", "@)]
        } else {
            Seq::empty()
        };
        let parts = entry_part + spec_crates_subs(n.subs, super_ns, ns);
        if parts.len() == 0 {
            Seq::empty()
        } else {
            let prefix: Seq<char> = if n.name.len() > 0 {
                n.name + "::"@
            } else {
                Seq::empty()
            };
            if parts.len() > 1 {
                prefix + "{"@ + spec_join(parts, ", "@) + "}"@
            } else {
                prefix + spec_join(parts, ", "@)
            }
        }
    }
}

/// The non-empty fully-qualified contributions of the children, in order,
/// the reserved built-ins child excluded.
pub open spec fn spec_crates_subs(
    subs: Seq<(Seq<char>, NamespaceV)>,
    super_ns: Seq<char>,
    ns: Seq<char>,
) -> Seq<Seq<char>>
    decreases subs, 0int,
{
    if subs.len() == 0 {
        Seq::empty()
    } else {
        let r = spec_use_crates(subs[0].1, super_ns, ns);
        let head: Seq<Seq<char>> = if subs[0].1.name == "oscal_types"@ || r.len() == 0 {
            Seq::empty()
        } else {
            seq![r]
        };
        head + spec_crates_subs(subs.skip(1), super_ns, ns)
    }
}


/// Processing one more child extends the collected contributions by that
/// child's, when non-empty and not the built-ins child.
pub proof fn lemma_crates_subs_take_step(
    subs: Seq<(Seq<char>, NamespaceV)>,
    super_ns: Seq<char>,
    ns: Seq<char>,
    i: int,
)
    requires
        0 <= i < subs.len(),
    ensures
        spec_crates_subs(subs.take(i + 1), super_ns, ns) == spec_crates_subs(
            subs.take(i),
            super_ns,
            ns,
        ) + ({
            let r = spec_use_crates(subs[i].1, super_ns, ns);
            if subs[i].1.name == "oscal_types"@ || r.len() == 0 {
                Seq::<Seq<char>>::empty()
            } else {
                seq![r]
            }
        }),
    decreases subs.take(i).len(),
{
    if i == 0 {
        assert(subs.take(1)[0] == subs[0]);
        assert(subs.take(1).skip(1) =~= Seq::<(Seq<char>, NamespaceV)>::empty());
        assert(spec_crates_subs(subs.take(0), super_ns, ns) =~= Seq::<Seq<char>>::empty());
        let step = {
            let r = spec_use_crates(subs[0].1, super_ns, ns);
            if subs[0].1.name == "oscal_types"@ || r.len() == 0 {
                Seq::<Seq<char>>::empty()
            } else {
                seq![r]
            }
        };
        assert(step + Seq::<Seq<char>>::empty() =~= step);
        assert(Seq::<Seq<char>>::empty() + step =~= step);
        assert(spec_crates_subs(subs.take(1), super_ns, ns) == step + spec_crates_subs(
            subs.take(1).skip(1),
            super_ns,
            ns,
        ));
        assert(spec_crates_subs(subs.take(1), super_ns, ns) == step);
        assert(spec_crates_subs(subs.take(0), super_ns, ns) + step == step);
    } else {
        lemma_crates_subs_take_step(subs.skip(1), super_ns, ns, i - 1);
        assert(subs.take(i + 1)[0] == subs[0]);
        assert(subs.take(i)[0] == subs[0]);
        assert(subs.take(i + 1).skip(1) =~= subs.skip(1).take(i));
        assert(subs.take(i).skip(1) =~= subs.skip(1).take(i - 1));
        assert(subs.skip(1)[i - 1] == subs[i]);
        let head0 = {
            let r = spec_use_crates(subs[0].1, super_ns, ns);
            if subs[0].1.name == "oscal_types"@ || r.len() == 0 {
                Seq::<Seq<char>>::empty()
            } else {
                seq![r]
            }
        };
        let tailstep = {
            let r = spec_use_crates(subs[i].1, super_ns, ns);
            if subs[i].1.name == "oscal_types"@ || r.len() == 0 {
                Seq::<Seq<char>>::empty()
            } else {
                seq![r]
            }
        };
        assert(spec_crates_subs(subs.take(i + 1), super_ns, ns) == head0 + spec_crates_subs(
            subs.skip(1).take(i),
            super_ns,
            ns,
        ));
        assert(spec_crates_subs(subs.take(i), super_ns, ns) == head0 + spec_crates_subs(
            subs.skip(1).take(i - 1),
            super_ns,
            ns,
        ));
        assert((head0 + (spec_crates_subs(subs.skip(1).take(i - 1), super_ns, ns) + tailstep))
            =~= (head0 + spec_crates_subs(subs.skip(1).take(i - 1), super_ns, ns)) + tailstep);
        assert(spec_crates_subs(subs.skip(1).take(i), super_ns, ns) == spec_crates_subs(
            subs.skip(1).take(i - 1),
            super_ns,
            ns,
        ) + tailstep);
        assert(spec_crates_subs(subs.take(i + 1), super_ns, ns) == head0 + (spec_crates_subs(
            subs.skip(1).take(i - 1),
            super_ns,
            ns,
        ) + tailstep));
        assert(spec_crates_subs(subs.take(i), super_ns, ns) + tailstep == (head0
            + spec_crates_subs(subs.skip(1).take(i - 1), super_ns, ns)) + tailstep);
    }
}


/// The entry names kept for the ancestor-relative group: the non-empty
/// names other than the generation unit's own type name.
pub open spec fn spec_filtered_entries(e: Seq<Seq<char>>, parent_name: Seq<char>) -> Seq<Seq<char>>
    decreases e.len(),
{
    if e.len() == 0 {
        Seq::empty()
    } else {
        let rest = spec_filtered_entries(e.drop_last(), parent_name);
        if e.last().len() > 0 && e.last() != parent_name {
            rest.push(e.last())
        } else {
            rest
        }
    }
}

/// A unit's own name is never among its kept entry names.
pub proof fn lemma_self_exclusion(e: Seq<Seq<char>>, parent_name: Seq<char>)
    ensures
        !spec_filtered_entries(e, parent_name).contains(parent_name),
    decreases e.len(),
{
    if e.len() > 0 {
        lemma_self_exclusion(e.drop_last(), parent_name);
        let rest = spec_filtered_entries(e.drop_last(), parent_name);
        if e.last().len() > 0 && e.last() != parent_name {
            assert forall|i: int| 0 <= i < rest.push(e.last()).len() implies rest.push(
                e.last(),
            )[i] != parent_name by {
                if i < rest.len() {
                    assert(!rest.contains(parent_name));
                    assert(rest[i] == rest.push(e.last())[i]);
                    if rest[i] == parent_name {
                        assert(rest.contains(parent_name)) by {
                            assert(rest[i] == parent_name);
                        }
                    }
                }
            }
            if rest.push(e.last()).contains(parent_name) {
                let w = choose|w: int|
                    0 <= w < rest.push(e.last()).len() && rest.push(e.last())[w] == parent_name;
                assert(rest.push(e.last())[w] != parent_name);
            }
        } else {
            if rest.contains(parent_name) {
                assert(false);
            }
        }
    }
}

/// The parts that remain once empty ones are dropped, in order.
pub open spec fn spec_nonempty(parts: Seq<Seq<char>>) -> Seq<Seq<char>>
    decreases parts.len(),
{
    if parts.len() == 0 {
        Seq::empty()
    } else {
        let rest = spec_nonempty(parts.drop_last());
        if parts.last().len() > 0 {
            rest.push(parts.last())
        } else {
            rest
        }
    }
}

/// The ancestor/self-relative import text contributed by `n` for the unit
/// at `super_ns` named `parent_name`.  A node unrelated to `super_ns`
/// contributes nothing; a strict ancestor descends into the one child that
/// continues toward `super_ns`; a node at or below `super_ns` contributes
/// its kept entry names and its children's non-empty contributions,
/// brace-grouped when several, prefixed by its segment name unless it
/// stands exactly at `super_ns`.
pub open spec fn spec_use_supers(
    n: NamespaceV,
    super_ns: Seq<char>,
    parent_name: Seq<char>,
    parent_ns: Seq<char>,
) -> Seq<char>
    decreases n, 1int,
{
    let ns = if parent_ns.len() == 0 {
        n.name
    } else {
        parent_ns + "::"@ + n.name
    };
    let c = spec_cmp(ns, super_ns);
    if c is None {
        Seq::empty()
    } else if c == Some(Ordering::Less) {
        spec_supers_descend(n.subs, super_ns, parent_name, ns)
    } else {
        let entry_part: Seq<Seq<char>> = if n.entries.len() > 0 {
            seq![spec_join(spec_filtered_entries(n.entries, parent_name), ", "@)]
        } else {
            Seq::empty()
        };
        let parts0 = entry_part + spec_supers_subs(n.subs, super_ns, parent_name, ns);
        if parts0.len() == 0 {
            Seq::empty()
        } else {
            let parts = spec_nonempty(parts0);
            let prefix: Seq<char> = if c != Some(Ordering::Equal) {
                n.name + "::"@
            } else {
                Seq::empty()
            };
            if parts.len() > 1 {
                prefix + "{"@ + spec_join(parts, ", "@) + "}"@
            } else {
                prefix + spec_join(parts, ", "@)
            }
        }
    }
}

/// The contribution of the first child that continues toward `super_ns`,
/// or nothing when no child does.
pub open spec fn spec_supers_descend(
    subs: Seq<(Seq<char>, NamespaceV)>,
    super_ns: Seq<char>,
    parent_name: Seq<char>,
    ns: Seq<char>,
) -> Seq<char>
    decreases subs, 0int,
{
    if subs.len() == 0 {
        Seq::empty()
    } else {
        let sub_ns = if ns.len() == 0 {
            subs[0].0
        } else {
            ns + "::"@ + subs[0].0
        };
        if spec_cmp(sub_ns, super_ns) is Some {
            spec_use_supers(subs[0].1, super_ns, parent_name, ns)
        } else {
            spec_supers_descend(subs.skip(1), super_ns, parent_name, ns)
        }
    }
}

/// The non-empty ancestor-relative contributions of the children, in
/// order.
pub open spec fn spec_supers_subs(
    subs: Seq<(Seq<char>, NamespaceV)>,
    super_ns: Seq<char>,
    parent_name: Seq<char>,
    ns: Seq<char>,
) -> Seq<Seq<char>>
    decreases subs, 0int,
{
    if subs.len() == 0 {
        Seq::empty()
    } else {
        let r = spec_use_supers(subs[0].1, super_ns, parent_name, ns + "::"@ + subs[0].0);
        (if r.len() > 0 {
            seq![r]
        } else {
            Seq::<Seq<char>>::empty()
        }) + spec_supers_subs(subs.skip(1), super_ns, parent_name, ns)
    }
}

/// Processing one more child extends the collected ancestor-relative
/// contributions by that child's, when non-empty.
pub proof fn lemma_supers_subs_take_step(
    subs: Seq<(Seq<char>, NamespaceV)>,
    super_ns: Seq<char>,
    parent_name: Seq<char>,
    ns: Seq<char>,
    i: int,
)
    requires
        0 <= i < subs.len(),
    ensures
        spec_supers_subs(subs.take(i + 1), super_ns, parent_name, ns) == spec_supers_subs(
            subs.take(i),
            super_ns,
            parent_name,
            ns,
        ) + ({
            let r = spec_use_supers(subs[i].1, super_ns, parent_name, ns + "::"@ + subs[i].0);
            if r.len() > 0 {
                seq![r]
            } else {
                Seq::<Seq<char>>::empty()
            }
        }),
    decreases subs.take(i).len(),
{
    let step = {
        let r = spec_use_supers(subs[i].1, super_ns, parent_name, ns + "::"@ + subs[i].0);
        if r.len() > 0 {
            seq![r]
        } else {
            Seq::<Seq<char>>::empty()
        }
    };
    if i == 0 {
        assert(subs.take(1)[0] == subs[0]);
        assert(subs.take(1).skip(1) =~= Seq::<(Seq<char>, NamespaceV)>::empty());
        assert(spec_supers_subs(subs.take(0), super_ns, parent_name, ns) =~= Seq::<
            Seq<char>,
        >::empty());
        assert(step + Seq::<Seq<char>>::empty() =~= step);
        assert(Seq::<Seq<char>>::empty() + step =~= step);
        assert(spec_supers_subs(subs.take(1), super_ns, parent_name, ns) == step
            + spec_supers_subs(subs.take(1).skip(1), super_ns, parent_name, ns));
        assert(spec_supers_subs(subs.take(1), super_ns, parent_name, ns) == step);
        assert(spec_supers_subs(subs.take(0), super_ns, parent_name, ns) + step == step);
    } else {
        lemma_supers_subs_take_step(subs.skip(1), super_ns, parent_name, ns, i - 1);
        assert(subs.take(i + 1)[0] == subs[0]);
        assert(subs.take(i)[0] == subs[0]);
        assert(subs.take(i + 1).skip(1) =~= subs.skip(1).take(i));
        assert(subs.take(i).skip(1) =~= subs.skip(1).take(i - 1));
        assert(subs.skip(1)[i - 1] == subs[i]);
        let head0 = {
            let r = spec_use_supers(subs[0].1, super_ns, parent_name, ns + "::"@ + subs[0].0);
            if r.len() > 0 {
                seq![r]
            } else {
                Seq::<Seq<char>>::empty()
            }
        };
        assert((head0 + (spec_supers_subs(subs.skip(1).take(i - 1), super_ns, parent_name, ns)
            + step)) =~= (head0 + spec_supers_subs(
            subs.skip(1).take(i - 1),
            super_ns,
            parent_name,
            ns,
        )) + step);
        assert(spec_supers_subs(subs.skip(1).take(i), super_ns, parent_name, ns)
            == spec_supers_subs(subs.skip(1).take(i - 1), super_ns, parent_name, ns) + step);
        assert(spec_supers_subs(subs.take(i + 1), super_ns, parent_name, ns) == head0 + (
        spec_supers_subs(subs.skip(1).take(i - 1), super_ns, parent_name, ns) + step));
        assert(spec_supers_subs(subs.take(i), super_ns, parent_name, ns) + step == (head0
            + spec_supers_subs(subs.skip(1).take(i - 1), super_ns, parent_name, ns)) + step);
    }
}

impl Namespace {
    /// An empty accumulator node with the given segment name.
    pub fn new(name: &str) -> (r: Self)
        ensures
            r@ == (NamespaceV {
                name: name@,
                entries: Seq::<Seq<char>>::empty(),
                subs: Seq::<(Seq<char>, NamespaceV)>::empty(),
            }),
    {
        let r = Self { name: name.to_owned(), entries: Vec::new(), subs: Vec::new() };
        proof {
            assert(r@.entries =~= Seq::<Seq<char>>::empty());
        }
        r
    }


    /// True when `name` is already among this node's entries.
    fn has_entry(&self, name: &str) -> (r: bool)
        ensures
            r == self@.entries.contains(name@),
    {
        let n = self.entries.len();
        let mut i: usize = 0;
        while i < n
            invariant
                n == self.entries@.len(),
                0 <= i <= n,
                forall|j: int| 0 <= j < i ==> self@.entries[j] != name@,
            decreases n - i,
        {
            assert(self@.entries[i as int] == self.entries@[i as int]@);
            if str_eq(self.entries[i].as_str(), name) {
                assert(self@.entries.contains(name@)) by {
                    assert(self@.entries[i as int] == name@);
                }
                return true;
            }
            i += 1;
        }
        assert(!self@.entries.contains(name@)) by {
            if self@.entries.contains(name@) {
                let w = choose|w: int| 0 <= w < self@.entries.len() && self@.entries[w] == name@;
                assert(self@.entries[w] != name@);
            }
        }
        false
    }

    /// The position of the child named `key`, if present.
    fn find_sub(&self, key: &str) -> (r: Option<usize>)
        ensures
            match r {
                Some(i) => i as int == assoc_first_index(self@.subs, key@) && i < self@.subs.len(),
                None => assoc_first_index(self@.subs, key@) == -1,
            },
    {
        proof {
            lemma_subs_view(self.subs@);
        }
        let n = self.subs.len();
        let mut i: usize = 0;
        while i < n
            invariant
                n == self.subs@.len(),
                n == self@.subs.len(),
                0 <= i <= n,
                forall|j: int| 0 <= j < i ==> (#[trigger] self@.subs[j]).0 != key@,
                forall|j: int| 0 <= j < n ==> (#[trigger] self@.subs[j]).0 == self.subs@[j].0@,
            decreases n - i,
        {
            if str_eq(self.subs[i].0.as_str(), key) {
                proof {
                    lemma_assoc_first_index_found(self@.subs, key@, i as int);
                }
                return Some(i);
            }
            i += 1;
        }
        proof {
            lemma_assoc_first_index_absent(self@.subs, key@);
        }
        None
    }

    /// Where the new child named `key` goes to keep the children ordered.
    fn find_insert_pos(&self, key: &str) -> (r: usize)
        ensures
            r as int == spec_insert_pos(self@.subs, key@),
            r <= self@.subs.len(),
    {
        proof {
            lemma_subs_view(self.subs@);
        }
        let n = self.subs.len();
        let mut i: usize = 0;
        while i < n
            invariant
                n == self.subs@.len(),
                n == self@.subs.len(),
                0 <= i <= n,
                forall|j: int| 0 <= j < i ==> !lex_lt(key@, (#[trigger] self@.subs[j]).0),
                forall|j: int| 0 <= j < n ==> (#[trigger] self@.subs[j]).0 == self.subs@[j].0@,
            decreases n - i,
        {
            if str_lt(key, self.subs[i].0.as_str()) {
                proof {
                    lemma_insert_pos_at(self@.subs, key@, i as int);
                }
                return i;
            }
            i += 1;
        }
        proof {
            lemma_insert_pos_at(self@.subs, key@, n as int);
        }
        n
    }

    /// Records `name` under the path segments `segs[..upto]`, read from the
    /// last one inwards.
    fn add_segs(&mut self, segs: &Vec<&str>, upto: usize, name: &str) -> (r: Result<(), ()>)
        requires
            upto <= segs@.len(),
        ensures
            r is Ok,
            final(self)@ == spec_add(old(self)@, segs.deep_view().take(upto as int), name@),
        decreases upto,
    {
        let ghost oldv = self@;
        let ghost segsv = segs.deep_view().take(upto as int);
        if upto == 0 {
            if !self.has_entry(name) {
                let ghost olde = self.entries@;
                self.entries.push(name.to_owned());
                proof {
                    assert(self@.entries =~= oldv.entries.push(name@));
                    assert(self@ =~= spec_add(oldv, segsv, name@));
                }
            } else {
                proof {
                    assert(self@ =~= spec_add(oldv, segsv, name@));
                }
            }
            return Ok(());
        }
        let branch = segs[upto - 1];
        proof {
            assert(segsv.last() == branch@);
            assert(segsv.drop_last() =~= segs.deep_view().take(upto - 1));
        }
        match self.find_sub(branch) {
            Some(i) => {
                proof {
                    lemma_subs_view(self.subs@);
                }
                let ghost olds = self.subs@;
                let (key, mut sub) = self.subs.remove(i);
                let ghost subv = sub@;
                sub.add_segs(segs, upto - 1, name)?;
                let ghost keyv = key@;
                let pair = (key, sub);
                let ghost pairv = pair;
                self.subs.insert(i, pair);
                proof {
                    assert(self.subs@ == olds.remove(i as int).insert(i as int, pairv));
                    olds.remove_ensures(i as int);
                    olds.remove(i as int).insert_ensures(i as int, pairv);
                    lemma_subs_view(self.subs@);
                    assert forall|j: int| 0 <= j < olds.len() && j != i implies self.subs@[j]
                        == olds[j] by {
                        if j < i {
                            assert(self.subs@[j] == olds.remove(i as int)[j]);
                        } else {
                            assert(self.subs@[j] == olds.remove(i as int)[j - 1]);
                        }
                    }
                    assert(self.subs@[i as int] == pairv);
                    assert(keyv == oldv.subs[i as int].0);
                    assert(subv == oldv.subs[i as int].1);
                    lemma_assoc_first_index_range(oldv.subs, segsv.last());
                    assert(oldv.subs[i as int].0 == segsv.last());
                    assert(ns_view(pairv.1) == spec_add(
                        oldv.subs[i as int].1,
                        segsv.drop_last(),
                        name@,
                    ));
                    let ghost target = oldv.subs.update(
                        i as int,
                        (segsv.last(), spec_add(oldv.subs[i as int].1, segsv.drop_last(), name@)),
                    );
                    assert(self@.subs.len() == target.len());
                    assert forall|j: int| 0 <= j < self@.subs.len() implies self@.subs[j]
                        == target[j] by {
                        assert(self@.subs[j] == (self.subs@[j].0@, ns_view(self.subs@[j].1)));
                        if j == i {
                            assert(self.subs@[j] == pairv);
                        } else {
                            assert(self.subs@[j] == olds[j]);
                            assert(target[j] == oldv.subs[j]);
                            assert(oldv.subs[j] == (olds[j].0@, ns_view(olds[j].1)));
                        }
                    }
                    assert(self@.subs =~= target);
                    assert(self@ =~= spec_add(oldv, segsv, name@));
                }
                Ok(())
            },
            None => {
                let mut sub = Namespace::new(branch);
                sub.add_segs(segs, upto - 1, name)?;
                let pos = self.find_insert_pos(branch);
                proof {
                    lemma_subs_view(self.subs@);
                }
                let ghost olds = self.subs@;
                let pair = (branch.to_owned(), sub);
                let ghost pairv = pair;
                self.subs.insert(pos, pair);
                proof {
                    assert(self.subs@ == olds.insert(pos as int, pairv));
                    olds.insert_ensures(pos as int, pairv);
                    lemma_subs_view(self.subs@);
                    let target = spec_add(oldv, segsv, name@);
                    assert(target.subs == oldv.subs.insert(
                        spec_insert_pos(oldv.subs, segsv.last()),
                        (
                            segsv.last(),
                            spec_add(
                                NamespaceV {
                                    name: segsv.last(),
                                    entries: Seq::<Seq<char>>::empty(),
                                    subs: Seq::<(Seq<char>, NamespaceV)>::empty(),
                                },
                                segsv.drop_last(),
                                name@,
                            ),
                        ),
                    ));
                    oldv.subs.insert_ensures(
                        pos as int,
                        (
                            segsv.last(),
                            spec_add(
                                NamespaceV {
                                    name: segsv.last(),
                                    entries: Seq::<Seq<char>>::empty(),
                                    subs: Seq::<(Seq<char>, NamespaceV)>::empty(),
                                },
                                segsv.drop_last(),
                                name@,
                            ),
                        ),
                    );
                    assert forall|j: int| 0 <= j < self@.subs.len() implies self@.subs[j]
                        == target.subs[j] by {
                        if j < pos {
                            assert(self.subs@[j] == olds[j]);
                        } else if j == pos {
                            assert(self.subs@[j] == pairv);
                        } else {
                            assert(self.subs@[j] == olds[j - 1]);
                        }
                    }
                    assert(self@.subs =~= target.subs);
                    assert(self@ =~= target);
                }
                Ok(())
            },
        }
    }

    /// Records `name` under the path whose segments fill `ns` innermost
    /// last; the segments are consumed.
    pub fn add(&mut self, ns: &mut Vec<&str>, name: &str) -> (r: Result<(), crate::error::Error>)
        ensures
            r is Ok,
            final(self)@ == spec_add(old(self)@, old(ns).deep_view(), name@),
            final(ns)@.len() == 0,
    {
        let upto = ns.len();
        proof {
            assert(ns.deep_view().take(upto as int) =~= ns.deep_view());
        }
        let _ = self.add_segs(ns, upto, name);
        ns.clear();
        Ok(())
    }

    /// Records a resolved descriptor: a native type (empty namespace, seen
    /// at the root) is skipped; anything else is recorded under its
    /// namespace path.
    pub fn add_type(&mut self, schema_type: &SchemaType) -> (r: Result<(), crate::error::Error>)
        ensures
            r is Ok,
            final(self)@ == spec_add_type(old(self)@, schema_type@),
    {
        if self.name.as_str().is_empty() && schema_type.ns.as_str().is_empty() {
            return Ok(());
        }
        let parts = split_on_sep(schema_type.ns.as_str());
        let mut rev: Vec<&str> = Vec::new();
        let n = parts.len();
        let mut i: usize = 0;
        while i < n
            invariant
                n == parts@.len(),
                0 <= i <= n,
                rev@.len() == i,
                forall|j: int| 0 <= j < i ==> (#[trigger] rev@[j])@ == parts.deep_view()[n - 1 - j],
            decreases n - i,
        {
            rev.push(parts[n - 1 - i]);
            i += 1;
        }
        proof {
            assert(rev.deep_view() =~= parts.deep_view().reverse());
        }
        let mut rev2 = rev;
        self.add(&mut rev2, schema_type.name.as_str())
    }


    /// The shared built-ins import line's body, when any built-in name was
    /// recorded.
    pub fn use_types(&self) -> (r: Option<String>)
        ensures
            match r {
                Some(s) => assoc_has(self@.subs, "oscal_types"@) && s@ == spec_use_types(self@),
                None => !assoc_has(self@.subs, "oscal_types"@),
            },
    {
        let i = match self.find_sub("oscal_types") {
            Some(i) => i,
            None => {
                return None;
            },
        };
        proof {
            lemma_subs_view(self.subs@);
            lemma_assoc_first_index_range(self@.subs, "oscal_types"@);
        }
        let types_ns = &self.subs[i].1;
        assert(assoc_get(self@.subs, "oscal_types"@) == Some(types_ns@));
        let entries = join_strings(&types_ns.entries, ", ");
        if types_ns.entries.len() == 1 {
            Some(entries)
        } else {
            let mut out = "{ ".to_owned();
            out.append(entries.as_str());
            out.append(" }");
            proof {
                assert(out@ =~= spec_use_types(self@));
            }
            Some(out)
        }
    }

    /// The node's own path: the parent path extended by its segment name.
    fn own_path(&self, parent_ns: &str) -> (r: String)
        ensures
            r@ == if parent_ns@.len() == 0 {
                self@.name
            } else {
                parent_ns@ + "::"@ + self@.name
            },
    {
        if parent_ns.is_empty() {
            self.name.clone()
        } else {
            let mut s = parent_ns.to_owned();
            s.append("::");
            s.append(self.name.as_str());
            s
        }
    }

    /// The fully-qualified import text for this node, seen from the
    /// context namespace `super_ns`.
    #[verifier::loop_isolation(false)]
    pub fn use_crates(&self, super_ns: &str, parent_ns: &str) -> (r: String)
        ensures
            r@ == spec_use_crates(self@, super_ns@, parent_ns@),
        decreases *self,
    {
        let ns = self.own_path(parent_ns);
        let ghost nsv = ns@;
        if !super_ns.is_empty() && str_eq(super_ns, ns.as_str()) {
            return String::new();
        }
        let mut parts: Vec<String> = Vec::new();
        if self.entries.len() > 0 {
            parts.push(join_strings(&self.entries, ", "));
        }
        let ghost entry_part: Seq<Seq<char>> = if self@.entries.len() > 0 {
            seq![spec_join(self@.entries, ", "@)]
        } else {
            Seq::<Seq<char>>::empty()
        };
        assert(parts.deep_view() =~= entry_part);
        let ghost full = self@.subs;
        proof {
            lemma_subs_view(self.subs@);
            assert(full.skip(0) =~= full);
        }
        let n = self.subs.len();
        let mut i: usize = 0;
        while i < n
            invariant
                n == self.subs@.len(),
                0 <= i <= n,
                parts.deep_view() =~= entry_part + spec_crates_subs(full.take(i as int), super_ns@, nsv),
                spec_crates_subs(full, super_ns@, nsv) == spec_crates_subs(full.take(i as int), super_ns@, nsv)
                    + spec_crates_subs(full.skip(i as int), super_ns@, nsv),
            decreases n - i,
        {
            let ghost pre = parts.deep_view();
            let sub = &self.subs[i].1;
            assert(full[i as int] == (self.subs@[i as int].0@, sub@));
            proof {
                assert(full.skip(i as int)[0] == full[i as int]);
                assert(full.skip(i as int).skip(1) =~= full.skip(i + 1));
                assert(full.take(i + 1) =~= full.take(i as int).push(full[i as int]));
            }
            let ghost r_spec = spec_use_crates(sub@, super_ns@, nsv);
            let ghost head: Seq<Seq<char>> = if sub@.name == "oscal_types"@ || r_spec.len() == 0 {
                Seq::<Seq<char>>::empty()
            } else {
                seq![r_spec]
            };
            proof {
                assert(spec_crates_subs(full.skip(i as int), super_ns@, nsv) == head
                    + spec_crates_subs(full.skip(i + 1), super_ns@, nsv));
                lemma_crates_subs_take_step(full, super_ns@, nsv, i as int);
            }
            if !str_eq(sub.name.as_str(), "oscal_types") {
                let s = sub.use_crates(super_ns, ns.as_str());
                if !s.as_str().is_empty() {
                    parts.push(s);
                    proof {
                        assert(parts.deep_view() =~= pre.push(r_spec));
                    }
                }
            }
            proof {
                assert(parts.deep_view() =~= pre + head);
            }
            i += 1;
        }
        proof {
            assert(full.take(n as int) =~= full);
            assert(full.skip(n as int) =~= Seq::<(Seq<char>, NamespaceV)>::empty());
        }
        let ghost partsv = entry_part + spec_crates_subs(full, super_ns@, nsv);
        assert(parts.deep_view() =~= partsv);
        if parts.len() == 0 {
            return String::new();
        }
        let mut out = String::new();
        if !self.name.as_str().is_empty() {
            out.append(self.name.as_str());
            out.append("::");
        }
        let body = join_strings(&parts, ", ");
        if parts.len() > 1 {
            out.append("{");
            out.append(body.as_str());
            out.append("}");
        } else {
            out.append(body.as_str());
        }
        proof {
            assert(out@ =~= spec_use_crates(self@, super_ns@, parent_ns@));
        }
        out
    }


    /// The kept entry names: non-empty and not the unit's own name.
    fn filtered_entries(&self, parent_name: &str) -> (r: Vec<String>)
        ensures
            r.deep_view() == spec_filtered_entries(self@.entries, parent_name@),
    {
        let n = self.entries.len();
        let mut out: Vec<String> = Vec::new();
        let mut i: usize = 0;
        proof {
            assert(self@.entries.take(0) =~= Seq::<Seq<char>>::empty());
        }
        while i < n
            invariant
                n == self.entries@.len(),
                n == self@.entries.len(),
                0 <= i <= n,
                out.deep_view() == spec_filtered_entries(
                    self@.entries.take(i as int),
                    parent_name@,
                ),
            decreases n - i,
        {
            proof {
                assert(self@.entries.take(i + 1).drop_last() =~= self@.entries.take(i as int));
                assert(self@.entries.take(i + 1).last() == self@.entries[i as int]);
                assert(self@.entries[i as int] == self.entries@[i as int]@);
            }
            let ghost pre = out.deep_view();
            let e = &self.entries[i];
            if !e.as_str().is_empty() && !str_eq(e.as_str(), parent_name) {
                out.push(e.clone());
                proof {
                    assert(out.deep_view() =~= pre.push(e@));
                }
            }
            i += 1;
        }
        proof {
            assert(self@.entries.take(n as int) =~= self@.entries);
        }
        out
    }

    /// The ancestor/self-relative import text for the unit named
    /// `parent_name` at `super_ns`.
    #[verifier::loop_isolation(false)]
    pub fn use_supers(&self, super_ns: &str, parent_name: &str, parent_ns: &str) -> (r: Result<
        String,
        crate::error::Error,
    >)
        ensures
            r matches Ok(s) && s@ == spec_use_supers(self@, super_ns@, parent_name@, parent_ns@),
        decreases *self,
    {
        let ns = self.own_path(parent_ns);
        let ghost nsv = ns@;
        let c = Namespace::cmp(ns.as_str(), super_ns);
        let ord = match c {
            None => {
                return Ok(String::new());
            },
            Some(ord) => ord,
        };
        if matches!(ord, Ordering::Less) {
            // This node is a strict ancestor: descend into the single child
            // that continues toward the unit being generated.
            let ghost full = self@.subs;
            proof {
                lemma_subs_view(self.subs@);
                assert(full.skip(0) =~= full);
            }
            let m = self.subs.len();
            let mut j: usize = 0;
            while j < m
                invariant
                    m == self.subs@.len(),
                    0 <= j <= m,
                    spec_supers_descend(full, super_ns@, parent_name@, nsv)
                        == spec_supers_descend(full.skip(j as int), super_ns@, parent_name@, nsv),
                decreases m - j,
            {
                proof {
                    assert(full.skip(j as int)[0] == full[j as int]);
                    assert(full.skip(j as int).skip(1) =~= full.skip(j + 1));
                    assert(full[j as int] == (self.subs@[j as int].0@, self.subs@[j as int].1@));
                }
                let sub_name = &self.subs[j].0;
                let sub_ns: String = if ns.as_str().is_empty() {
                    sub_name.clone()
                } else {
                    let mut s = ns.clone();
                    s.append("::");
                    s.append(sub_name.as_str());
                    s
                };
                match Namespace::cmp(sub_ns.as_str(), super_ns) {
                    None => {
                        j += 1;
                    },
                    Some(_) => {
                        return self.subs[j].1.use_supers(super_ns, parent_name, ns.as_str());
                    },
                }
            }
            proof {
                assert(full.skip(m as int) =~= Seq::<(Seq<char>, NamespaceV)>::empty());
            }
            return Ok(String::new());
        }
        // This node lies at or below the unit being generated.
        let mut parts: Vec<String> = Vec::new();
        if self.entries.len() > 0 {
            let kept = self.filtered_entries(parent_name);
            parts.push(join_strings(&kept, ", "));
        }
        let ghost entry_part: Seq<Seq<char>> = if self@.entries.len() > 0 {
            seq![spec_join(spec_filtered_entries(self@.entries, parent_name@), ", "@)]
        } else {
            Seq::<Seq<char>>::empty()
        };
        assert(parts.deep_view() =~= entry_part);
        let ghost full = self@.subs;
        proof {
            lemma_subs_view(self.subs@);
            assert(full.take(0) =~= Seq::<(Seq<char>, NamespaceV)>::empty());
            assert(spec_supers_subs(full.take(0), super_ns@, parent_name@, nsv) =~= Seq::<
                Seq<char>,
            >::empty());
        }
        let m = self.subs.len();
        let mut j: usize = 0;
        while j < m
            invariant
                m == self.subs@.len(),
                0 <= j <= m,
                parts.deep_view() =~= entry_part + spec_supers_subs(
                    full.take(j as int),
                    super_ns@,
                    parent_name@,
                    nsv,
                ),
            decreases m - j,
        {
            let ghost pre = parts.deep_view();
            proof {
                assert(full[j as int] == (self.subs@[j as int].0@, self.subs@[j as int].1@));
                lemma_supers_subs_take_step(full, super_ns@, parent_name@, nsv, j as int);
            }
            let key = &self.subs[j].0;
            let mut sub_parent = ns.clone();
            sub_parent.append("::");
            sub_parent.append(key.as_str());
            let ghost r_spec = spec_use_supers(
                self.subs@[j as int].1@,
                super_ns@,
                parent_name@,
                nsv + "::"@ + full[j as int].0,
            );
            let sub_result = self.subs[j].1.use_supers(super_ns, parent_name, sub_parent.as_str());
            match sub_result {
                Ok(s) => {
                    assert(s@ == r_spec);
                    if !s.as_str().is_empty() {
                        parts.push(s);
                        proof {
                            assert(parts.deep_view() =~= pre.push(r_spec));
                        }
                    }
                },
                Err(_) => {
                    assert(false);
                },
            }
            j += 1;
        }
        proof {
            assert(full.take(m as int) =~= full);
        }
        let ghost parts0 = entry_part + spec_supers_subs(full, super_ns@, parent_name@, nsv);
        assert(parts.deep_view() =~= parts0);
        if parts.len() == 0 {
            return Ok(String::new());
        }
        // Drop the empty parts before grouping.
        let mut kept_parts: Vec<String> = Vec::new();
        let np = parts.len();
        let mut k: usize = 0;
        proof {
            assert(parts0.take(0) =~= Seq::<Seq<char>>::empty());
        }
        while k < np
            invariant
                np == parts@.len(),
                np == parts0.len(),
                parts.deep_view() =~= parts0,
                0 <= k <= np,
                kept_parts.deep_view() == spec_nonempty(parts0.take(k as int)),
            decreases np - k,
        {
            proof {
                assert(parts0.take(k + 1).drop_last() =~= parts0.take(k as int));
                assert(parts0.take(k + 1).last() == parts0[k as int]);
                assert(parts0[k as int] == parts@[k as int]@);
            }
            let ghost pre = kept_parts.deep_view();
            let part = &parts[k];
            if !part.as_str().is_empty() {
                kept_parts.push(part.clone());
                proof {
                    assert(kept_parts.deep_view() =~= pre.push(part@));
                }
            }
            k += 1;
        }
        proof {
            assert(parts0.take(np as int) =~= parts0);
        }
        let mut out = String::new();
        if !matches!(ord, Ordering::Equal) {
            out.append(self.name.as_str());
            out.append("::");
        }
        let body = join_strings(&kept_parts, ", ");
        if kept_parts.len() > 1 {
            out.append("{");
            out.append(body.as_str());
            out.append("}");
        } else {
            out.append(body.as_str());
        }
        proof {
            assert(out@ =~= spec_use_supers(self@, super_ns@, parent_name@, parent_ns@));
        }
        Ok(out)
    }

    /// Classifies `ns` against `super_ns` by their path segments.
    #[verifier::loop_isolation(false)]
    pub fn cmp(ns: &str, super_ns: &str) -> (r: Option<Ordering>)
        ensures
            r == spec_cmp(ns@, super_ns@),
    {
        if ns.unicode_len() == 0 {
            return Some(Ordering::Less);
        }
        let a = split_on_sep(ns);
        let b = split_on_sep(super_ns);
        let ghost av = split_path(ns@);
        let ghost bv = split_path(super_ns@);
        let alen = a.len();
        let blen = b.len();
        let m = if alen < blen {
            alen
        } else {
            blen
        };
        let mut i: usize = 0;
        while i < m
            invariant
                a.deep_view() == av,
                b.deep_view() == bv,
                alen == av.len(),
                blen == bv.len(),
                m == if alen < blen {
                    alen
                } else {
                    blen
                },
                0 <= i <= m,
                forall|j: int| 0 <= j < i ==> #[trigger] av[j] == bv[j],
            decreases m - i,
        {
            assert(a@[i as int]@ == av[i as int]);
            assert(b@[i as int]@ == bv[i as int]);
            if !str_eq(a[i], b[i]) {
                let ghost wi = i as int;
                assert(!(forall|j: int| 0 <= j < av.len() && j < bv.len() ==> #[trigger] av[j]
                    == bv[j])) by {
                    assert(0 <= wi < av.len() && wi < bv.len() && av[wi] != bv[wi]);
                }
                return None;
            }
            i += 1;
        }
        assert(forall|j: int| 0 <= j < av.len() && j < bv.len() ==> #[trigger] av[j] == bv[j]);
        if alen < blen {
            Some(Ordering::Less)
        } else if alen == blen {
            Some(Ordering::Equal)
        } else {
            Some(Ordering::Greater)
        }
    }
}

} // verus!
