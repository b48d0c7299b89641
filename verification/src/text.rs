//! Byte-level text primitives shared by the HTTP components: substring
//! search, prefix and suffix tests, and ASCII case folding.
//!
//! Every model is a `Seq<u8>`. A `String` or `&str` is modelled by its UTF-8
//! bytes.

use vstd::prelude::*;
use vstd::slice::*;
use vstd::string::*;
use vstd::utf8::*;

verus! {

/// The UTF-8 bytes of a string literal.
pub open spec fn lit(s: &str) -> Seq<u8> {
    s.spec_bytes()
}

/// The UTF-8 bytes of the text whose characters are `chars`.
pub open spec fn text_bytes(chars: Seq<char>) -> Seq<u8> {
    encode_utf8(chars)
}

/// `needle` occurs in `hay` at offset `i`.
pub open spec fn occurs_at(hay: Seq<u8>, needle: Seq<u8>, i: int) -> bool {
    0 <= i && i + needle.len() <= hay.len() && hay.subrange(i, i + needle.len()) == needle
}

/// Offset of the first occurrence of `needle` in `hay` at or after `from`.
pub open spec fn find_from(hay: Seq<u8>, needle: Seq<u8>, from: int) -> Option<int>
    decreases hay.len() + 1 - from,
{
    if from < 0 || from + needle.len() > hay.len() {
        None
    } else if occurs_at(hay, needle, from) {
        Some(from)
    } else {
        find_from(hay, needle, from + 1)
    }
}

/// `needle` occurs somewhere in `hay`.
pub open spec fn contains(hay: Seq<u8>, needle: Seq<u8>) -> bool {
    find_from(hay, needle, 0) is Some
}

/// A hit of `find_from` is an occurrence, and nothing occurs before it.
pub proof fn lemma_find_some(hay: Seq<u8>, needle: Seq<u8>, from: int)
    requires
        find_from(hay, needle, from) is Some,
    ensures
        from <= find_from(hay, needle, from)->0,
        occurs_at(hay, needle, find_from(hay, needle, from)->0),
        forall|j: int|
            from <= j < find_from(hay, needle, from)->0 ==> !occurs_at(hay, needle, j),
    decreases hay.len() + 1 - from,
{
    if !occurs_at(hay, needle, from) {
        lemma_find_some(hay, needle, from + 1);
    }
}

/// A miss of `find_from` means that nothing occurs at or after `from`.
pub proof fn lemma_find_none(hay: Seq<u8>, needle: Seq<u8>, from: int)
    requires
        0 <= from,
        find_from(hay, needle, from) is None,
    ensures
        forall|j: int| from <= j ==> !occurs_at(hay, needle, j),
    decreases hay.len() + 1 - from,
{
    if from + needle.len() <= hay.len() {
        lemma_find_none(hay, needle, from + 1);
    }
}

/// The first occurrence at or after `from` is `k` exactly when `needle`
/// occurs at `k` and nowhere in between.
pub proof fn lemma_find_is(hay: Seq<u8>, needle: Seq<u8>, from: int, k: int)
    requires
        0 <= from <= k,
        occurs_at(hay, needle, k),
        forall|j: int| from <= j < k ==> !occurs_at(hay, needle, j),
    ensures
        find_from(hay, needle, from) == Some(k),
    decreases k - from,
{
    if from < k {
        lemma_find_is(hay, needle, from + 1, k);
    }
}

/// An occurrence inside a prefix of `hay` is found in `hay` at the same place.
pub proof fn lemma_find_extend(short: Seq<u8>, hay: Seq<u8>, needle: Seq<u8>, from: int)
    requires
        0 <= from,
        short.is_prefix_of(hay),
        find_from(short, needle, from) is Some,
    ensures
        find_from(hay, needle, from) == find_from(short, needle, from),
{
    lemma_find_some(short, needle, from);
    let k = find_from(short, needle, from)->0;
    assert(occurs_at(hay, needle, k)) by {
        assert(hay.subrange(k, k + needle.len()) =~= short.subrange(k, k + needle.len()));
    }
    assert forall|j: int| from <= j < k implies !occurs_at(hay, needle, j) by {
        if occurs_at(hay, needle, j) {
            assert(short.subrange(j, j + needle.len()) =~= hay.subrange(j, j + needle.len()));
            assert(occurs_at(short, needle, j));
        }
    }
    lemma_find_is(hay, needle, from, k);
}

/// An occurrence in `hay` that ends inside a prefix is found in the prefix.
pub proof fn lemma_find_restrict(short: Seq<u8>, hay: Seq<u8>, needle: Seq<u8>, from: int)
    requires
        0 <= from,
        short.is_prefix_of(hay),
        find_from(hay, needle, from) is Some,
        find_from(hay, needle, from)->0 + needle.len() <= short.len(),
    ensures
        find_from(short, needle, from) == find_from(hay, needle, from),
{
    lemma_find_some(hay, needle, from);
    let k = find_from(hay, needle, from)->0;
    assert(occurs_at(short, needle, k)) by {
        assert(hay.subrange(k, k + needle.len()) =~= short.subrange(k, k + needle.len()));
    }
    assert forall|j: int| from <= j < k implies !occurs_at(short, needle, j) by {
        if occurs_at(short, needle, j) {
            assert(short.subrange(j, j + needle.len()) =~= hay.subrange(j, j + needle.len()));
            assert(occurs_at(hay, needle, j));
        }
    }
    lemma_find_is(short, needle, from, k);
}

/// Finds the first occurrence of `needle` in `hay` at or after `from`.
pub fn find(hay: &[u8], needle: &[u8], from: usize) -> (r: Option<usize>)
    ensures
        match r {
            Some(k) => find_from(hay@, needle@, from as int) == Some(k as int),
            None => find_from(hay@, needle@, from as int) is None,
        },
{
    let n: usize = hay.len();
    let m: usize = needle.len();
    if m > n || from > n - m {
        return None;
    }
    if m == 0 {
        assert(hay@.subrange(from as int, from as int) =~= needle@);
        return Some(from);
    }
    let mut i: usize = from;
    while i <= n - m
        invariant
            1 <= m <= n,
            n == hay.len(),
            m == needle.len(),
            from <= i <= n - m + 1,
            find_from(hay@, needle@, from as int) == find_from(hay@, needle@, i as int),
        decreases n - m + 1 - i,
    {
        let mut j: usize = 0;
        while j < m && hay[i + j] == needle[j]
            invariant
                j <= m,
                i + m <= n,
                n == hay.len(),
                m == needle.len(),
                forall|k: int| 0 <= k < j ==> hay[i + k] == needle[k],
            decreases m - j,
        {
            j += 1;
        }
        if j == m {
            assert(hay@.subrange(i as int, i + m) =~= needle@);
            return Some(i);
        }
        assert(!occurs_at(hay@, needle@, i as int)) by {
            if occurs_at(hay@, needle@, i as int) {
                assert(hay@.subrange(i as int, i + m)[j as int] == needle@[j as int]);
            }
        }
        i += 1;
    }
    None
}

/// Whether two byte strings are equal.
pub fn bytes_eq(a: &[u8], b: &[u8]) -> (r: bool)
    ensures
        r == (a@ == b@),
{
    if a.len() != b.len() {
        return false;
    }
    let mut i: usize = 0;
    while i < a.len()
        invariant
            a.len() == b.len(),
            i <= a.len(),
            forall|k: int| 0 <= k < i ==> a[k] == b[k],
        decreases a.len() - i,
    {
        if a[i] != b[i] {
            return false;
        }
        i += 1;
    }
    assert(a@ =~= b@);
    true
}

/// Whether `s` begins with `prefix`.
pub fn starts_with(s: &[u8], prefix: &[u8]) -> (r: bool)
    ensures
        r == prefix@.is_prefix_of(s@),
{
    if prefix.len() > s.len() {
        return false;
    }
    bytes_eq(slice_subrange(s, 0, prefix.len()), prefix)
}

/// Whether `s` ends with `suffix`.
pub fn ends_with(s: &[u8], suffix: &[u8]) -> (r: bool)
    ensures
        r == suffix@.is_suffix_of(s@),
{
    if suffix.len() > s.len() {
        return false;
    }
    bytes_eq(slice_subrange(s, s.len() - suffix.len(), s.len()), suffix)
}

/// The lower-case form of an ASCII letter; any other byte is unchanged.
pub open spec fn lower(b: u8) -> u8 {
    if 0x41 <= b <= 0x5a {
        (b + 0x20) as u8
    } else {
        b
    }
}

/// `s` with every ASCII upper-case letter folded to lower case.
pub open spec fn lowered(s: Seq<u8>) -> Seq<u8> {
    Seq::new(s.len(), |i: int| lower(s[i]))
}

/// Folds an ASCII upper-case letter to lower case.
pub fn to_lower(b: u8) -> (r: u8)
    ensures
        r == lower(b),
{
    if b >= 0x41 && b <= 0x5a {
        b + 0x20
    } else {
        b
    }
}

/// Whether `s`, folded to ASCII lower case, begins with `prefix`.
pub fn starts_with_ignore_case(s: &[u8], prefix: &[u8]) -> (r: bool)
    ensures
        r == prefix@.is_prefix_of(lowered(s@)),
{
    if prefix.len() > s.len() {
        return false;
    }
    let mut i: usize = 0;
    while i < prefix.len()
        invariant
            prefix.len() <= s.len(),
            i <= prefix.len(),
            forall|k: int| 0 <= k < i ==> lower(s[k]) == prefix[k],
        decreases prefix.len() - i,
    {
        if to_lower(s[i]) != prefix[i] {
            assert(lowered(s@).subrange(0, prefix@.len() as int)[i as int] != prefix@[i as int]);
            return false;
        }
        i += 1;
    }
    assert(prefix@ =~= lowered(s@).subrange(0, prefix@.len() as int));
    true
}

/// Whether `s`, folded to ASCII lower case, equals `other`.
pub fn eq_ignore_case(s: &[u8], other: &[u8]) -> (r: bool)
    ensures
        r == (lowered(s@) == other@),
{
    if s.len() != other.len() {
        return false;
    }
    let r = starts_with_ignore_case(s, other);
    assert(lowered(s@).subrange(0, other@.len() as int) =~= lowered(s@));
    r
}

} // verus!
