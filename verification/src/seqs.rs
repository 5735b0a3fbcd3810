//! Searching a sequence for its first element with a given property.

use vstd::prelude::*;

verus! {

/// Position of the first element of `s` that satisfies `p`, if there is one.
pub open spec fn first_index<T>(s: Seq<T>, p: spec_fn(T) -> bool) -> Option<int>
    decreases s.len(),
{
    if s.len() == 0 {
        None
    } else if p(s[0]) {
        Some(0)
    } else {
        match first_index(s.drop_first(), p) {
            Some(i) => Some(i + 1),
            None => None,
        }
    }
}

/// `first_index` returns a position that satisfies `p` and has none before it that does, and
/// returns nothing only where no element satisfies `p`.
pub proof fn lemma_first_index<T>(s: Seq<T>, p: spec_fn(T) -> bool)
    ensures
        match first_index(s, p) {
            Some(i) => 0 <= i < s.len() && p(s[i]) && forall|j: int| 0 <= j < i ==> !p(s[j]),
            None => forall|j: int| 0 <= j < s.len() ==> !p(s[j]),
        },
    decreases s.len(),
{
    if s.len() > 0 && !p(s[0]) {
        let rest = s.drop_first();
        lemma_first_index(rest, p);
        match first_index(rest, p) {
            Some(i) => {
                assert forall|j: int| 0 <= j < i + 1 implies !p(s[j]) by {
                    if j > 0 {
                        assert(s[j] == rest[j - 1]);
                    }
                }
            },
            None => {
                assert forall|j: int| 0 <= j < s.len() implies !p(s[j]) by {
                    if j > 0 {
                        assert(s[j] == rest[j - 1]);
                    }
                }
            },
        }
    }
}

/// A position that satisfies `p` with none before it that does is what `first_index` returns.
pub proof fn lemma_first_index_at<T>(s: Seq<T>, p: spec_fn(T) -> bool, i: int)
    requires
        0 <= i < s.len(),
        p(s[i]),
        forall|j: int| 0 <= j < i ==> !p(s[j]),
    ensures
        first_index(s, p) == Some(i),
{
    lemma_first_index(s, p);
}

/// Where no element satisfies `p`, `first_index` returns nothing.
pub proof fn lemma_first_index_none<T>(s: Seq<T>, p: spec_fn(T) -> bool)
    requires
        forall|j: int| 0 <= j < s.len() ==> !p(s[j]),
    ensures
        first_index(s, p) is None,
{
    lemma_first_index(s, p);
}

/// Two sequences of one length on which `p` agrees position by position have their first match
/// at the same position.
pub proof fn lemma_first_index_agrees<T>(a: Seq<T>, b: Seq<T>, p: spec_fn(T) -> bool)
    requires
        a.len() == b.len(),
        forall|i: int| 0 <= i < a.len() ==> p(a[i]) == p(b[i]),
    ensures
        first_index(a, p) == first_index(b, p),
{
    lemma_first_index(a, p);
    lemma_first_index(b, p);
    match first_index(a, p) {
        Some(i) => {
            assert(p(b[i]));
            match first_index(b, p) {
                Some(k) => {
                    assert(p(a[k]));
                    if k < i {
                        assert(!p(a[k]));
                    }
                    if i < k {
                        assert(!p(b[i]));
                    }
                },
                None => {
                    assert(!p(b[i]));
                },
            }
        },
        None => {
            match first_index(b, p) {
                Some(k) => {
                    assert(p(a[k]));
                    assert(!p(a[k]));
                },
                None => {},
            }
        },
    }
}

} // verus!
