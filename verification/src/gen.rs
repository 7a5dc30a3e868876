//! Support for the emission stage: wrapping description comments, and
//! resolving a unit's references while recording every resolved descriptor
//! in its usage accumulator.

use vstd::prelude::*;
use vstd::utf8::encode_utf8;
use crate::assoc::assoc_get;
use crate::error::{Error, ErrorV};
use crate::name_space::{spec_add_type, Namespace, NamespaceV};
use crate::property::{Property, PropertyV};
use crate::resolver::{spec_resolve, Resolver};
use crate::schema_type::{SchemaType, SchemaTypeV};
use crate::type_ref::TypeRef;

verus! {

/// True when `c` is one of the characters the word splitter breaks on:
/// the Unicode white-space set.
pub open spec fn spec_is_whitespace(c: char) -> bool {
    c == ' ' || c == '\t' || c == '\n' || c == '\u{0B}' || c == '\u{0C}' || c == '\r' || c
        == '\u{85}' || c == '\u{A0}' || c == '\u{1680}' || ('\u{2000}' <= c && c <= '\u{200A}') || c
        == '\u{2028}' || c == '\u{2029}' || c == '\u{202F}' || c == '\u{205F}' || c == '\u{3000}'
}

fn is_whitespace_char(c: char) -> (r: bool)
    ensures
        r == spec_is_whitespace(c),
{
    c == ' ' || c == '\t' || c == '\n' || c == '\u{0B}' || c == '\u{0C}' || c == '\r' || c
        == '\u{85}' || c == '\u{A0}' || c == '\u{1680}' || (c >= '\u{2000}' && c <= '\u{200A}') || c
        == '\u{2028}' || c == '\u{2029}' || c == '\u{202F}' || c == '\u{205F}' || c == '\u{3000}'
}

/// The position of the first white-space character, or `-1` if none.
pub open spec fn first_ws(s: Seq<char>) -> int
    decreases s.len(),
{
    if s.len() == 0 {
        -1
    } else if spec_is_whitespace(s[0]) {
        0
    } else {
        let r = first_ws(s.skip(1));
        if r < 0 {
            -1
        } else {
            r + 1
        }
    }
}

pub proof fn lemma_first_ws_range(s: Seq<char>)
    ensures
        first_ws(s) == -1 || (0 <= first_ws(s) < s.len() && spec_is_whitespace(s[first_ws(s)])),
    decreases s.len(),
{
    if s.len() > 0 && !spec_is_whitespace(s[0]) {
        lemma_first_ws_range(s.skip(1));
    }
}

pub proof fn lemma_first_ws_found(s: Seq<char>, k: int)
    requires
        0 <= k < s.len(),
        spec_is_whitespace(s[k]),
        forall|j: int| 0 <= j < k ==> !spec_is_whitespace(#[trigger] s[j]),
    ensures
        first_ws(s) == k,
    decreases s.len(),
{
    if !spec_is_whitespace(s[0]) {
        assert(k > 0);
        lemma_first_ws_found(s.skip(1), k - 1);
    }
}

pub proof fn lemma_first_ws_absent(s: Seq<char>)
    requires
        forall|j: int| 0 <= j < s.len() ==> !spec_is_whitespace(#[trigger] s[j]),
    ensures
        first_ws(s) == -1,
    decreases s.len(),
{
    if s.len() > 0 {
        lemma_first_ws_absent(s.skip(1));
    }
}

/// The maximal runs of non-white-space characters, in order.
pub open spec fn spec_words(s: Seq<char>) -> Seq<Seq<char>>
    decreases s.len(),
    via spec_words_dec
{
    if s.len() == 0 {
        Seq::empty()
    } else if spec_is_whitespace(s[0]) {
        spec_words(s.skip(1))
    } else {
        let fw = first_ws(s);
        let k = if fw < 0 {
            s.len() as int
        } else {
            fw
        };
        seq![s.take(k)] + spec_words(s.skip(k))
    }
}

#[via_fn]
proof fn spec_words_dec(s: Seq<char>) {
    lemma_first_ws_range(s);
}

/// The lines of a wrapped comment, folded one word at a time: a word joins
/// the pending line, and a pending line longer than 75 bytes is emitted.
pub open spec fn spec_wrap(
    words: Seq<Seq<char>>,
    i: int,
    tmp: Seq<char>,
    acc: Seq<Seq<char>>,
) -> Seq<Seq<char>>
    decreases words.len() - i,
{
    if i < 0 || i >= words.len() {
        if tmp.len() > 0 {
            acc.push(tmp)
        } else {
            acc
        }
    } else {
        let tmp2 = if tmp.len() == 0 {
            words[i]
        } else {
            tmp + " "@ + words[i]
        };
        if (encode_utf8(tmp2).len() as usize) > 75 {
            spec_wrap(words, i + 1, Seq::empty(), acc.push(tmp2))
        } else {
            spec_wrap(words, i + 1, tmp2, acc)
        }
    }
}

/// What wrapping a comment yields: the comment itself when shorter than 80
/// bytes, else its words folded into lines of just over 75 bytes each.
pub open spec fn spec_split_str_on_words(s: Seq<char>) -> Seq<Seq<char>> {
    if (encode_utf8(s).len() as usize) < 80 {
        seq![s]
    } else {
        spec_wrap(spec_words(s), 0, Seq::empty(), Seq::empty())
    }
}

/// The words of `s`: the maximal non-white-space runs.
fn split_whitespace_words(s: &str) -> (r: Vec<String>)
    ensures
        r.deep_view() == spec_words(s@),
    decreases s@.len(),
{
    let n = s.unicode_len();
    if n == 0 {
        let r: Vec<String> = Vec::new();
        proof {
            assert(r.deep_view() =~= spec_words(s@));
        }
        return r;
    }
    if is_whitespace_char(s.get_char(0)) {
        let rest = s.substring_char(1, n);
        assert(rest@ =~= s@.skip(1));
        return split_whitespace_words(rest);
    }
    // Find where the first word ends.
    let mut k: usize = 0;
    #[verifier::loop_isolation(false)]
    while k < n
        invariant
            n == s@.len(),
            0 <= k <= n,
            forall|j: int| 0 <= j < k ==> !spec_is_whitespace(#[trigger] s@[j]),
        decreases n - k,
    {
        if is_whitespace_char(s.get_char(k)) {
            break ;
        }
        k += 1;
    }
    proof {
        if k < n {
            lemma_first_ws_found(s@, k as int);
        } else {
            lemma_first_ws_absent(s@);
        }
    }
    let word = s.substring_char(0, k);
    let rest = s.substring_char(k, n);
    assert(word@ =~= s@.take(k as int));
    assert(rest@ =~= s@.skip(k as int));
    let mut out = split_whitespace_words(rest);
    out.insert(0, word.to_owned());
    proof {
        assert(out.deep_view() =~= seq![s@.take(k as int)] + spec_words(s@.skip(k as int)));
        assert(out.deep_view() =~= spec_words(s@));
    }
    out
}

/// Splits a long description into comment lines of about 76 bytes, broken
/// at word boundaries; a short one stays a single line.
#[verifier::loop_isolation(false)]
pub fn split_str_on_words(comment: &str) -> (r: Vec<String>)
    ensures
        r.deep_view() == spec_split_str_on_words(comment@),
{
    if comment.len() < 80 {
        let mut v: Vec<String> = Vec::new();
        v.push(comment.to_owned());
        proof {
            assert(v.deep_view() =~= spec_split_str_on_words(comment@));
        }
        return v;
    }
    let words = split_whitespace_words(comment);
    let ghost wordsv = words.deep_view();
    let mut results: Vec<String> = Vec::new();
    let mut tmp_str = String::new();
    let n = words.len();
    let mut i: usize = 0;
    proof {
        assert(results.deep_view() =~= Seq::<Seq<char>>::empty());
        assert(tmp_str@ =~= Seq::<char>::empty());
    }
    while i < n
        invariant
            n == wordsv.len(),
            n == words@.len(),
            words.deep_view() == wordsv,
            0 <= i <= n,
            spec_wrap(wordsv, 0, Seq::empty(), Seq::empty()) == spec_wrap(
                wordsv,
                i as int,
                tmp_str@,
                results.deep_view(),
            ),
        decreases n - i,
    {
        let ghost tmp_pre = tmp_str@;
        let ghost acc_pre = results.deep_view();
        assert(wordsv[i as int] == words@[i as int]@);
        if tmp_str.as_str().is_empty() {
            tmp_str = words[i].clone();
        } else {
            tmp_str.append(" ");
            tmp_str.append(words[i].as_str());
            proof {
                assert(tmp_str@ =~= tmp_pre + " "@ + wordsv[i as int]);
            }
        }
        if tmp_str.as_str().len() > 75 {
            let ghost line = tmp_str@;
            results.push(tmp_str);
            tmp_str = String::new();
            proof {
                assert(results.deep_view() =~= acc_pre.push(line));
                assert(tmp_str@ =~= Seq::<char>::empty());
            }
        }
        proof {
            assert(spec_wrap(wordsv, i as int, tmp_pre, acc_pre) == spec_wrap(
                wordsv,
                i + 1,
                tmp_str@,
                results.deep_view(),
            ));
        }
        i += 1;
    }
    if !tmp_str.as_str().is_empty() {
        let ghost line = tmp_str@;
        let ghost acc_pre = results.deep_view();
        results.push(tmp_str);
        proof {
            assert(results.deep_view() =~= acc_pre.push(line));
        }
    }
    results
}

/// What resolving a unit's wrapper reference does to its accumulator: an
/// absent reference changes nothing; an unresolvable one is a resolution
/// error; a resolved one records its descriptor and the generated crate's
/// own error type.
pub open spec fn spec_add_type_ref(
    r: Option<Seq<char>>,
    reg: Seq<(Seq<char>, SchemaTypeV)>,
    n: NamespaceV,
) -> Result<NamespaceV, ErrorV> {
    match r {
        None => Ok(n),
        Some(rf) => match assoc_get(reg, rf) {
            None => Err(ErrorV::ResolverFailure),
            Some(t) => Ok(
                spec_add_type(
                    spec_add_type(n, t),
                    SchemaTypeV { ns: "error"@, name: "Error"@ },
                ),
            ),
        },
    }
}

/// Resolves a unit's wrapper reference, recording the resolved descriptor
/// and the generated crate's error type in the accumulator.
pub fn add_type_ref(_ref: &Option<String>, resolver: &Resolver, namespace: &mut Namespace) -> (r:
    Result<(), Error>)
    ensures
        match r {
            Ok(_) => spec_add_type_ref(
                match _ref {
                    Some(s) => Some(s@),
                    None => None,
                },
                resolver@,
                old(namespace)@,
            ) == Ok::<NamespaceV, ErrorV>(final(namespace)@),
            Err(e) => e@ == ErrorV::ResolverFailure && (match _ref {
                Some(s) => assoc_get(resolver@, s@) is None,
                None => false,
            }) && final(namespace)@ == old(namespace)@,
        },
{
    let rf = match _ref {
        Some(s) => s.clone(),
        None => {
            return Ok(());
        },
    };
    let tr = TypeRef::from_ref(Some(rf));
    let schema_type = match resolver.resolve(&tr) {
        Some(t) => t,
        None => {
            return Err(Error::ResolverFailure);
        },
    };
    let _ = namespace.add_type(&schema_type);
    let err_type = SchemaType::new("error", "Error");
    let _ = namespace.add_type(&err_type);
    Ok(())
}

/// What resolving every property of a unit yields: the resolved descriptor
/// of each, in order, all recorded in the accumulator; the first property
/// whose reference has no target is a resolution error.
pub open spec fn spec_resolve_props(
    ps: Seq<(Seq<char>, PropertyV)>,
    i: int,
    reg: Seq<(Seq<char>, SchemaTypeV)>,
    acc: Seq<SchemaTypeV>,
    n: NamespaceV,
) -> Result<(Seq<SchemaTypeV>, NamespaceV), ErrorV>
    decreases ps.len() - i,
{
    if i < 0 || i >= ps.len() {
        Ok((acc, n))
    } else {
        match spec_resolve(reg, ps[i].1.type_ref) {
            None => Err(ErrorV::ResolverFailure),
            Some(t) => spec_resolve_props(ps, i + 1, reg, acc.push(t), spec_add_type(n, t)),
        }
    }
}

/// Resolves each property's reference in order, recording every resolved
/// descriptor in the accumulator, and hands the descriptors back for the
/// emission stage.
#[verifier::loop_isolation(false)]
pub fn resolve_props(
    props: &Option<Vec<(String, Property)>>,
    resolver: &Resolver,
    name_space: &mut Namespace,
) -> (r: Result<Vec<SchemaType>, Error>)
    ensures
        match r {
            Ok(ts) => spec_resolve_props(
                match props {
                    Some(p) => crate::schema_object::props_view(p@),
                    None => Seq::<(Seq<char>, PropertyV)>::empty(),
                },
                0,
                resolver@,
                Seq::<SchemaTypeV>::empty(),
                old(name_space)@,
            ) == Ok::<(Seq<SchemaTypeV>, NamespaceV), ErrorV>(
                (ts.deep_view(), final(name_space)@),
            ),
            Err(e) => spec_resolve_props(
                match props {
                    Some(p) => crate::schema_object::props_view(p@),
                    None => Seq::<(Seq<char>, PropertyV)>::empty(),
                },
                0,
                resolver@,
                Seq::<SchemaTypeV>::empty(),
                old(name_space)@,
            ) == Err::<(Seq<SchemaTypeV>, NamespaceV), ErrorV>(e@),
        },
{
    let mut out: Vec<SchemaType> = Vec::new();
    let ps = match props {
        Some(p) => p,
        None => {
            proof {
                assert(out.deep_view() =~= Seq::<SchemaTypeV>::empty());
            }
            return Ok(out);
        },
    };
    let ghost psv = crate::schema_object::props_view(ps@);
    let ghost ns0 = name_space@;
    let n = ps.len();
    let mut i: usize = 0;
    proof {
        assert(out.deep_view() =~= Seq::<SchemaTypeV>::empty());
    }
    while i < n
        invariant
            n == psv.len(),
            n == ps@.len(),
            0 <= i <= n,
            spec_resolve_props(psv, 0, resolver@, Seq::<SchemaTypeV>::empty(), ns0)
                == spec_resolve_props(psv, i as int, resolver@, out.deep_view(), name_space@),
        decreases n - i,
    {
        let ghost acc_pre = out.deep_view();
        let ghost ns_pre = name_space@;
        assert(psv[i as int].1 == ps@[i as int].1@);
        let prop = &ps[i].1;
        let schema_type = match resolver.resolve(&prop.type_ref) {
            Some(t) => t,
            None => {
                return Err(Error::ResolverFailure);
            },
        };
        let _ = name_space.add_type(&schema_type);
        let ghost tv = schema_type@;
        out.push(schema_type);
        proof {
            assert(out.deep_view() =~= acc_pre.push(tv));
            assert(spec_resolve_props(psv, i as int, resolver@, acc_pre, ns_pre)
                == spec_resolve_props(psv, i + 1, resolver@, out.deep_view(), name_space@));
        }
        i += 1;
    }
    Ok(out)
}

} // verus!
