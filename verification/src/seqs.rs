//! Searching a sequence for the first or last element that satisfies a
//! predicate.

use vstd::prelude::*;

verus! {

/// The least index `j >= i` with `p(s[j])`, if there is one.
pub open spec fn first_from<T>(s: Seq<T>, p: spec_fn(T) -> bool, i: int) -> Option<int>
    decreases s.len() - i,
{
    if i < 0 || i >= s.len() {
        None
    } else if p(s[i]) {
        Some(i)
    } else {
        first_from(s, p, i + 1)
    }
}

/// The least index whose element satisfies `p`, if there is one.
pub open spec fn first_index<T>(s: Seq<T>, p: spec_fn(T) -> bool) -> Option<int> {
    first_from(s, p, 0)
}

/// The greatest index `j < i` with `p(s[j])`, if there is one.
pub open spec fn last_before<T>(s: Seq<T>, p: spec_fn(T) -> bool, i: int) -> Option<int>
    decreases i,
{
    if i <= 0 || i > s.len() {
        None
    } else if p(s[i - 1]) {
        Some(i - 1)
    } else {
        last_before(s, p, i - 1)
    }
}

/// The greatest index whose element satisfies `p`, if there is one.
pub open spec fn last_index<T>(s: Seq<T>, p: spec_fn(T) -> bool) -> Option<int> {
    last_before(s, p, s.len() as int)
}

/// Whether some element of `s` satisfies `p`.
pub open spec fn any<T>(s: Seq<T>, p: spec_fn(T) -> bool) -> bool {
    exists|j: int| 0 <= j < s.len() && p(#[trigger] s[j])
}

/// `first_from` returns the least matching index at or after `i`, and
/// `None` exactly when no such index exists.
pub proof fn lemma_first_from<T>(s: Seq<T>, p: spec_fn(T) -> bool, i: int)
    requires
        0 <= i <= s.len(),
    ensures
        match first_from(s, p, i) {
            Some(k) => i <= k < s.len() && p(s[k]) && forall|j: int|
                i <= j < k ==> !p(#[trigger] s[j]),
            None => forall|j: int| i <= j < s.len() ==> !p(#[trigger] s[j]),
        },
    decreases s.len() - i,
{
    if i < s.len() && !p(s[i]) {
        lemma_first_from(s, p, i + 1);
    }
}

/// `first_index` returns the least matching index, and `None` exactly when
/// nothing matches.
pub proof fn lemma_first_index<T>(s: Seq<T>, p: spec_fn(T) -> bool)
    ensures
        match first_index(s, p) {
            Some(k) => 0 <= k < s.len() && p(s[k]) && forall|j: int|
                0 <= j < k ==> !p(#[trigger] s[j]),
            None => forall|j: int| 0 <= j < s.len() ==> !p(#[trigger] s[j]),
        },
        first_index(s, p) is Some <==> any(s, p),
{
    lemma_first_from(s, p, 0);
}

/// An index that matches, with no match before it, is the first index.
pub proof fn lemma_first_index_is<T>(s: Seq<T>, p: spec_fn(T) -> bool, k: int)
    requires
        0 <= k < s.len(),
        p(s[k]),
        forall|j: int| 0 <= j < k ==> !p(#[trigger] s[j]),
    ensures
        first_index(s, p) == Some(k),
{
    lemma_first_index(s, p);
}

/// `last_before` returns the greatest matching index below `i`, and `None`
/// exactly when no such index exists.
pub proof fn lemma_last_before<T>(s: Seq<T>, p: spec_fn(T) -> bool, i: int)
    requires
        0 <= i <= s.len(),
    ensures
        match last_before(s, p, i) {
            Some(k) => 0 <= k < i && p(s[k]) && forall|j: int|
                k < j < i ==> !p(#[trigger] s[j]),
            None => forall|j: int| 0 <= j < i ==> !p(#[trigger] s[j]),
        },
    decreases i,
{
    if i > 0 && !p(s[i - 1]) {
        lemma_last_before(s, p, i - 1);
    }
}

/// `last_index` returns the greatest matching index, and `None` exactly
/// when nothing matches.
pub proof fn lemma_last_index<T>(s: Seq<T>, p: spec_fn(T) -> bool)
    ensures
        match last_index(s, p) {
            Some(k) => 0 <= k < s.len() && p(s[k]) && forall|j: int|
                k < j < s.len() ==> !p(#[trigger] s[j]),
            None => forall|j: int| 0 <= j < s.len() ==> !p(#[trigger] s[j]),
        },
        last_index(s, p) is Some <==> any(s, p),
{
    lemma_last_before(s, p, s.len() as int);
}

} // verus!
