//! Small verified helpers over strings: equality, prefix tests, and
//! splitting on a single character or on the `::` path separator.

use vstd::prelude::*;

verus! {

/// True when `a` and `b` hold the same characters.
pub fn str_eq(a: &str, b: &str) -> (r: bool)
    ensures
        r == (a@ == b@),
{
    let alen = a.unicode_len();
    let blen = b.unicode_len();
    if alen != blen {
        assert(a@ != b@) by {
            assert(a@.len() != b@.len());
        }
        return false;
    }
    let mut i: usize = 0;
    while i < alen
        invariant
            alen == a@.len(),
            blen == b@.len(),
            alen == blen,
            0 <= i <= alen,
            forall|j: int| 0 <= j < i ==> a@[j] == b@[j],
        decreases alen - i,
    {
        if a.get_char(i) != b.get_char(i) {
            assert(a@ != b@) by {
                assert(a@[i as int] != b@[i as int]);
            }
            return false;
        }
        i += 1;
    }
    assert(a@ =~= b@);
    true
}

/// A copy of a vector of strings, character for character.
pub fn clone_string_vec(v: &Vec<String>) -> (r: Vec<String>)
    ensures
        r.deep_view() == v.deep_view(),
{
    let mut out: Vec<String> = Vec::new();
    let n = v.len();
    let mut i: usize = 0;
    while i < n
        invariant
            n == v@.len(),
            0 <= i <= n,
            out@.len() == i,
            forall|j: int| 0 <= j < i ==> (#[trigger] out@[j])@ == v@[j]@,
        decreases n - i,
    {
        out.push(v[i].clone());
        i += 1;
    }
    proof {
        assert(out.deep_view() =~= v.deep_view());
    }
    out
}

/// True when `p` is a prefix of `s`.
pub open spec fn is_prefix_of(p: Seq<char>, s: Seq<char>) -> bool {
    p.len() <= s.len() && s.take(p.len() as int) == p
}

/// True when the characters of `prefix` start the characters of `s`.
pub fn starts_with(s: &str, prefix: &str) -> (r: bool)
    ensures
        r == is_prefix_of(prefix@, s@),
{
    let n = s.unicode_len();
    let p = prefix.unicode_len();
    if p > n {
        return false;
    }
    let mut i: usize = 0;
    while i < p
        invariant
            n == s@.len(),
            p == prefix@.len(),
            p <= n,
            0 <= i <= p,
            forall|j: int| 0 <= j < i ==> s@[j] == prefix@[j],
        decreases p - i,
    {
        if s.get_char(i) != prefix.get_char(i) {
            assert(!is_prefix_of(prefix@, s@)) by {
                assert(s@.take(p as int)[i as int] != prefix@[i as int]);
            }
            return false;
        }
        i += 1;
    }
    assert(s@.take(p as int) =~= prefix@);
    true
}

/// The position of the first occurrence of `c` in `s`, or `-1` if absent.
pub open spec fn first_index_of(s: Seq<char>, c: char) -> int
    decreases s.len(),
{
    if s.len() == 0 {
        -1
    } else if s[0] == c {
        0
    } else {
        let r = first_index_of(s.skip(1), c);
        if r < 0 {
            -1
        } else {
            r + 1
        }
    }
}

pub proof fn lemma_first_index_of_range(s: Seq<char>, c: char)
    ensures
        first_index_of(s, c) == -1 || (0 <= first_index_of(s, c) < s.len()),
    decreases s.len(),
{
    if s.len() > 0 && s[0] != c {
        lemma_first_index_of_range(s.skip(1), c);
    }
}

pub proof fn lemma_first_index_of_found(s: Seq<char>, c: char, k: int)
    requires
        0 <= k < s.len(),
        s[k] == c,
        forall|j: int| 0 <= j < k ==> s[j] != c,
    ensures
        first_index_of(s, c) == k,
    decreases s.len(),
{
    if s[0] != c {
        assert(k > 0);
        lemma_first_index_of_found(s.skip(1), c, k - 1);
    }
}

pub proof fn lemma_first_index_of_absent(s: Seq<char>, c: char)
    requires
        forall|j: int| 0 <= j < s.len() ==> s[j] != c,
    ensures
        first_index_of(s, c) == -1,
    decreases s.len(),
{
    if s.len() > 0 {
        lemma_first_index_of_absent(s.skip(1), c);
    }
}

/// The pieces of `s` between occurrences of `c`, in order.  A string without
/// `c` yields one piece; each occurrence of `c` ends a piece.
pub open spec fn split_char(s: Seq<char>, c: char) -> Seq<Seq<char>>
    decreases s.len(),
    via split_char_dec
{
    let i = first_index_of(s, c);
    if i < 0 {
        seq![s]
    } else {
        seq![s.take(i)] + split_char(s.skip(i + 1), c)
    }
}

#[via_fn]
proof fn split_char_dec(s: Seq<char>, c: char) {
    lemma_first_index_of_range(s, c);
}

/// The position of `c` in `s`, if it occurs.
pub fn find_char(s: &str, c: char) -> (r: Option<usize>)
    ensures
        match r {
            Some(i) => i < s@.len() && s@[i as int] == c && (forall|j: int|
                0 <= j < i ==> s@[j] != c),
            None => forall|j: int| 0 <= j < s@.len() ==> s@[j] != c,
        },
{
    let n = s.unicode_len();
    let mut i: usize = 0;
    while i < n
        invariant
            n == s@.len(),
            0 <= i <= n,
            forall|j: int| 0 <= j < i ==> s@[j] != c,
        decreases n - i,
    {
        if s.get_char(i) == c {
            return Some(i);
        }
        i += 1;
    }
    None
}

pub proof fn lemma_first_index_of_neg(s: Seq<char>, c: char)
    requires
        first_index_of(s, c) == -1,
    ensures
        forall|j: int| 0 <= j < s.len() ==> s[j] != c,
    decreases s.len(),
{
    if s.len() > 0 {
        lemma_first_index_of_neg(s.skip(1), c);
        assert(forall|j: int| 1 <= j < s.len() ==> s[j] == s.skip(1)[j - 1]);
    }
}

/// A string always splits into at least one piece, and a string holding `c`
/// splits into at least two.
pub proof fn lemma_split_char_len(s: Seq<char>, c: char)
    ensures
        split_char(s, c).len() >= 1,
        s.contains(c) ==> split_char(s, c).len() >= 2,
    decreases s.len(),
{
    lemma_first_index_of_range(s, c);
    let i = first_index_of(s, c);
    if i >= 0 {
        lemma_split_char_len(s.skip(i + 1), c);
    } else {
        if s.contains(c) {
            lemma_first_index_of_neg(s, c);
            let w = choose|w: int| 0 <= w < s.len() && s[w] == c;
            assert(s[w] != c);
        }
    }
}

/// True when `c` occurs in `s`.
pub fn contains_char(s: &str, c: char) -> (r: bool)
    ensures
        r == s@.contains(c),
{
    match find_char(s, c) {
        Some(i) => {
            assert(s@.contains(c)) by {
                assert(s@[i as int] == c);
            }
            true
        },
        None => {
            assert(!s@.contains(c)) by {
                if s@.contains(c) {
                    let w = choose|w: int| 0 <= w < s@.len() && s@[w] == c;
                    assert(s@[w] != c);
                }
            }
            false
        },
    }
}

/// Splits `s` at each occurrence of `c`.
pub fn split_on_char<'a>(s: &'a str, c: char) -> (r: Vec<&'a str>)
    ensures
        r.deep_view() == split_char(s@, c),
    decreases s@.len(),
{
    let n = s.unicode_len();
    match find_char(s, c) {
        None => {
            proof {
                lemma_first_index_of_absent(s@, c);
            }
            let mut v: Vec<&'a str> = Vec::new();
            v.push(s);
            proof {
                assert(v.deep_view() =~= split_char(s@, c));
            }
            v
        },
        Some(i) => {
            proof {
                lemma_first_index_of_found(s@, c, i as int);
            }
            let head = s.substring_char(0, i);
            let tail = s.substring_char(i + 1, n);
            assert(tail@ == s@.skip(i + 1)) by {
                assert(s@.subrange(i + 1, n as int) =~= s@.skip(i + 1));
            }
            let mut rest = split_on_char(tail, c);
            rest.insert(0, head);
            proof {
                assert(head@ =~= s@.take(i as int));
                assert(rest.deep_view() =~= seq![head@] + split_char(tail@, c));
                assert(rest.deep_view() =~= split_char(s@, c));
            }
            rest
        },
    }
}

/// Strict lexicographic order on character sequences, by code point.
pub open spec fn lex_lt(a: Seq<char>, b: Seq<char>) -> bool
    decreases a.len(),
{
    if b.len() == 0 {
        false
    } else if a.len() == 0 {
        true
    } else if a[0] != b[0] {
        (a[0] as u32) < (b[0] as u32)
    } else {
        lex_lt(a.skip(1), b.skip(1))
    }
}

/// One step of `lex_lt` along a common prefix.
pub proof fn lemma_lex_lt_step(a: Seq<char>, b: Seq<char>, i: int)
    requires
        0 <= i < a.len(),
        i < b.len(),
        forall|j: int| 0 <= j <= i ==> a[j] == b[j],
    ensures
        lex_lt(a, b) == lex_lt(a.skip(i + 1), b.skip(i + 1)),
    decreases i,
{
    assert(a.skip(i).skip(1) =~= a.skip(i + 1));
    assert(b.skip(i).skip(1) =~= b.skip(i + 1));
    if i == 0 {
        assert(lex_lt(a, b) == lex_lt(a.skip(1), b.skip(1)));
    } else {
        lemma_lex_lt_step(a, b, i - 1);
        assert(a.skip(i)[0] == a[i]);
        assert(b.skip(i)[0] == b[i]);
        assert(lex_lt(a.skip(i), b.skip(i)) == lex_lt(a.skip(i).skip(1), b.skip(i).skip(1)));
    }
}

/// True when `a` orders strictly before `b`.
pub fn str_lt(a: &str, b: &str) -> (r: bool)
    ensures
        r == lex_lt(a@, b@),
{
    let alen = a.unicode_len();
    let blen = b.unicode_len();
    let m = if alen < blen {
        alen
    } else {
        blen
    };
    let mut i: usize = 0;
    proof {
        assert(a@.skip(0) =~= a@);
        assert(b@.skip(0) =~= b@);
    }
    while i < m
        invariant
            alen == a@.len(),
            blen == b@.len(),
            m == if alen < blen {
                alen
            } else {
                blen
            },
            0 <= i <= m,
            forall|j: int| 0 <= j < i ==> a@[j] == b@[j],
            lex_lt(a@, b@) == lex_lt(a@.skip(i as int), b@.skip(i as int)),
        decreases m - i,
    {
        let ca = a.get_char(i);
        let cb = b.get_char(i);
        if ca != cb {
            proof {
                assert(a@.skip(i as int)[0] == a@[i as int]);
                assert(b@.skip(i as int)[0] == b@[i as int]);
            }
            return (ca as u32) < (cb as u32);
        }
        proof {
            lemma_lex_lt_step(a@, b@, i as int);
        }
        i += 1;
    }
    proof {
        if alen < blen {
            assert(a@.skip(i as int).len() == 0);
            assert(b@.skip(i as int).len() > 0);
        } else if blen < alen {
            assert(b@.skip(i as int).len() == 0);
        } else {
            assert(a@.skip(i as int).len() == 0);
            assert(b@.skip(i as int).len() == 0);
        }
    }
    alen < blen
}

/// The pieces joined by `sep`: empty for no pieces, the piece itself for
/// one, and each further piece preceded by `sep`.
pub open spec fn spec_join(parts: Seq<Seq<char>>, sep: Seq<char>) -> Seq<char>
    decreases parts.len(),
{
    if parts.len() == 0 {
        Seq::empty()
    } else if parts.len() == 1 {
        parts[0]
    } else {
        parts[0] + sep + spec_join(parts.skip(1), sep)
    }
}

/// Joining one more piece appends a separator and the piece, once the list
/// is non-empty.
pub proof fn lemma_join_push(parts: Seq<Seq<char>>, x: Seq<char>, sep: Seq<char>)
    ensures
        parts.len() == 0 ==> spec_join(parts.push(x), sep) == x,
        parts.len() > 0 ==> spec_join(parts.push(x), sep) == spec_join(parts, sep) + sep + x,
    decreases parts.len(),
{
    let p = parts.push(x);
    if parts.len() == 0 {
        assert(p.len() == 1);
        assert(p[0] == x);
    } else {
        lemma_join_push(parts.skip(1), x, sep);
        assert(p.skip(1) =~= parts.skip(1).push(x));
        assert(p[0] == parts[0]);
        if parts.len() == 1 {
            assert(spec_join(p, sep) == p[0] + sep + spec_join(p.skip(1), sep));
            assert(spec_join(p.skip(1), sep) == x);
            assert(spec_join(parts, sep) == parts[0]);
        } else {
            assert(spec_join(p, sep) == p[0] + sep + spec_join(p.skip(1), sep));
            assert(spec_join(parts, sep) == parts[0] + sep + spec_join(parts.skip(1), sep));
            assert(spec_join(parts.skip(1).push(x), sep) == spec_join(parts.skip(1), sep) + sep
                + x);
            assert((parts[0] + sep + (spec_join(parts.skip(1), sep) + sep + x)) =~= (parts[0] + sep
                + spec_join(parts.skip(1), sep)) + sep + x);
        }
    }
}

/// Joins the strings of `parts` with `sep` between them.
pub fn join_strings(parts: &Vec<String>, sep: &str) -> (r: String)
    ensures
        r@ == spec_join(parts.deep_view(), sep@),
{
    let mut out = String::new();
    let n = parts.len();
    let mut i: usize = 0;
    while i < n
        invariant
            n == parts@.len(),
            0 <= i <= n,
            out@ == spec_join(parts.deep_view().take(i as int), sep@),
        decreases n - i,
    {
        proof {
            assert(parts.deep_view().take(i + 1) =~= parts.deep_view().take(i as int).push(
                parts.deep_view()[i as int],
            ));
            lemma_join_push(parts.deep_view().take(i as int), parts.deep_view()[i as int], sep@);
        }
        if i > 0 {
            out.append(sep);
        }
        out.append(parts[i].as_str());
        i += 1;
    }
    proof {
        assert(parts.deep_view().take(n as int) =~= parts.deep_view());
    }
    out
}

/// The position of the first `::` in `s`, or `-1` if there is none.
pub open spec fn first_sep_of(s: Seq<char>) -> int
    decreases s.len(),
{
    if s.len() < 2 {
        -1
    } else if s[0] == ':' && s[1] == ':' {
        0
    } else {
        let r = first_sep_of(s.skip(1));
        if r < 0 {
            -1
        } else {
            r + 1
        }
    }
}

pub proof fn lemma_first_sep_of_range(s: Seq<char>)
    ensures
        first_sep_of(s) == -1 || (0 <= first_sep_of(s) && first_sep_of(s) + 1 < s.len()),
    decreases s.len(),
{
    if s.len() >= 2 && !(s[0] == ':' && s[1] == ':') {
        lemma_first_sep_of_range(s.skip(1));
    }
}

pub proof fn lemma_first_sep_of_found(s: Seq<char>, k: int)
    requires
        0 <= k,
        k + 1 < s.len(),
        s[k] == ':' && s[k + 1] == ':',
        forall|j: int| 0 <= j < k ==> !(#[trigger] s[j] == ':' && s[j + 1] == ':'),
    ensures
        first_sep_of(s) == k,
    decreases s.len(),
{
    if !(s[0] == ':' && s[1] == ':') {
        assert(k > 0);
        lemma_first_sep_of_found(s.skip(1), k - 1);
    }
}

pub proof fn lemma_first_sep_of_absent(s: Seq<char>)
    requires
        forall|j: int| 0 <= j && j + 1 < s.len() ==> !(#[trigger] s[j] == ':' && s[j + 1] == ':'),
    ensures
        first_sep_of(s) == -1,
    decreases s.len(),
{
    if s.len() >= 2 {
        lemma_first_sep_of_absent(s.skip(1));
    }
}

/// The segments of a `::`-separated path string, in order.
pub open spec fn split_path(s: Seq<char>) -> Seq<Seq<char>>
    decreases s.len(),
    via split_path_dec
{
    let i = first_sep_of(s);
    if i < 0 {
        seq![s]
    } else {
        seq![s.take(i)] + split_path(s.skip(i + 2))
    }
}

#[via_fn]
proof fn split_path_dec(s: Seq<char>) {
    lemma_first_sep_of_range(s);
}

/// The position of the first `::` in `s`, if any.
pub fn find_sep(s: &str) -> (r: Option<usize>)
    ensures
        match r {
            Some(i) => i + 1 < s@.len() && s@[i as int] == ':' && s@[i + 1] == ':' && (forall|
                j: int,
            |
                0 <= j < i ==> !(#[trigger] s@[j] == ':' && s@[j + 1] == ':')),
            None => forall|j: int|
                0 <= j && j + 1 < s@.len() ==> !(#[trigger] s@[j] == ':' && s@[j + 1] == ':'),
        },
{
    let n = s.unicode_len();
    if n < 2 {
        return None;
    }
    let mut i: usize = 0;
    while i + 1 < n
        invariant
            n == s@.len(),
            0 <= i,
            i + 1 <= n,
            forall|j: int| 0 <= j < i ==> !(#[trigger] s@[j] == ':' && s@[j + 1] == ':'),
        decreases n - i,
    {
        if s.get_char(i) == ':' && s.get_char(i + 1) == ':' {
            return Some(i);
        }
        i += 1;
    }
    None
}

/// Splits `s` at each `::` separator.
pub fn split_on_sep<'a>(s: &'a str) -> (r: Vec<&'a str>)
    ensures
        r.deep_view() == split_path(s@),
    decreases s@.len(),
{
    let n = s.unicode_len();
    match find_sep(s) {
        None => {
            proof {
                lemma_first_sep_of_absent(s@);
            }
            let mut v: Vec<&'a str> = Vec::new();
            v.push(s);
            proof {
                assert(v.deep_view() =~= split_path(s@));
            }
            v
        },
        Some(i) => {
            proof {
                lemma_first_sep_of_found(s@, i as int);
            }
            let head = s.substring_char(0, i);
            let tail = s.substring_char(i + 2, n);
            assert(tail@ == s@.skip(i + 2)) by {
                assert(s@.subrange(i + 2, n as int) =~= s@.skip(i + 2));
            }
            let mut rest = split_on_sep(tail);
            rest.insert(0, head);
            proof {
                assert(head@ =~= s@.take(i as int));
                assert(rest.deep_view() =~= seq![head@] + split_path(tail@));
                assert(rest.deep_view() =~= split_path(s@));
            }
            rest
        },
    }
}



/// True when every character is a Unicode scalar value, as every
/// character of a real string is.
pub open spec fn valid_chars(s: Seq<char>) -> bool {
    forall|i: int| 0 <= i < s.len() ==> 0 <= (#[trigger] s[i]) as int <= 0x10FFFF
}

/// Of two valid character sequences, either one orders strictly before
/// the other, or they are equal.
pub proof fn lemma_lex_trichotomy(a: Seq<char>, b: Seq<char>)
    requires
        valid_chars(a),
        valid_chars(b),
    ensures
        lex_lt(a, b) || lex_lt(b, a) || a == b,
    decreases a.len(),
{
    if b.len() == 0 {
        if a.len() == 0 {
            assert(a =~= b);
        }
    } else if a.len() == 0 {
    } else if a[0] != b[0] {
        assert(0 <= a[0] as int <= 0x10FFFF);
        assert(0 <= b[0] as int <= 0x10FFFF);
        assert(a[0] as int != b[0] as int);
    } else {
        assert(valid_chars(a.skip(1))) by {
            assert(forall|j: int| 0 <= j < a.skip(1).len() ==> a.skip(1)[j] == a[j + 1]);
        }
        assert(valid_chars(b.skip(1))) by {
            assert(forall|j: int| 0 <= j < b.skip(1).len() ==> b.skip(1)[j] == b[j + 1]);
        }
        lemma_lex_trichotomy(a.skip(1), b.skip(1));
        if a.skip(1) == b.skip(1) {
            assert(a.len() == b.len());
            assert forall|j: int| 0 <= j < a.len() implies a[j] == b[j] by {
                if j >= 1 {
                    assert(a[j] == a.skip(1)[j - 1]);
                    assert(b[j] == b.skip(1)[j - 1]);
                }
            }
            assert(a =~= b);
        }
    }
}

/// Strict lexicographic order is transitive.
pub proof fn lemma_lex_trans(a: Seq<char>, b: Seq<char>, c: Seq<char>)
    requires
        lex_lt(a, b),
        lex_lt(b, c),
    ensures
        lex_lt(a, c),
    decreases a.len(),
{
    if a.len() == 0 {
    } else {
        // A non-empty `a` forces `b` and `c` non-empty, else the premises
        // fail.
        if a[0] == b[0] {
            if b[0] == c[0] {
                lemma_lex_trans(a.skip(1), b.skip(1), c.skip(1));
            } else {
                assert(a[0] != c[0]);
            }
        } else {
            if b[0] == c[0] {
                assert(a[0] != c[0]);
            } else {
                if a[0] == c[0] {
                    assert((a[0] as u32) < (b[0] as u32) && (b[0] as u32) < (a[0] as u32));
                }
            }
        }
    }
}


/// Every piece of a valid path string is itself valid.
pub proof fn lemma_split_path_valid(s: Seq<char>)
    requires
        valid_chars(s),
    ensures
        forall|i: int|
            0 <= i < split_path(s).len() ==> valid_chars(#[trigger] split_path(s)[i]),
    decreases s.len(),
{
    lemma_first_sep_of_range(s);
    let fi = first_sep_of(s);
    if fi < 0 {
        assert(split_path(s) == seq![s]);
        assert(split_path(s)[0] == s);
    } else {
        let head = s.take(fi);
        let tail = s.skip(fi + 2);
        assert(valid_chars(head)) by {
            assert(forall|j: int| 0 <= j < head.len() ==> head[j] == s[j]);
        }
        assert(valid_chars(tail)) by {
            assert(forall|j: int| 0 <= j < tail.len() ==> tail[j] == s[j + fi + 2]);
        }
        lemma_split_path_valid(tail);
        assert(split_path(s) == seq![head] + split_path(tail));
        assert forall|i: int| 0 <= i < split_path(s).len() implies valid_chars(
            #[trigger] split_path(s)[i],
        ) by {
            if i == 0 {
                assert(split_path(s)[0] == head);
            } else {
                assert(split_path(s)[i] == split_path(tail)[i - 1]);
            }
        }
    }
}

} // verus!
