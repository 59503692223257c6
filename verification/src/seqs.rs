//! Searches and selections on sequences, as the contracts of the store's
//! operations state them.

use vstd::prelude::*;

verus! {

/// The index of the first element of `s` that satisfies `p`, or the length
/// of `s` where none does.
pub open spec fn first_where<T>(s: Seq<T>, p: spec_fn(T) -> bool) -> int
    decreases s.len(),
{
    if s.len() == 0 {
        0
    } else {
        let r = first_where(s.drop_last(), p);
        if r < s.len() - 1 {
            r
        } else if p(s.last()) {
            s.len() - 1
        } else {
            s.len() as int
        }
    }
}

/// The index of the last element of `s` that satisfies `p`, or -1 where
/// none does.
pub open spec fn last_where<T>(s: Seq<T>, p: spec_fn(T) -> bool) -> int
    decreases s.len(),
{
    if s.len() == 0 {
        -1
    } else if p(s.last()) {
        s.len() - 1
    } else {
        last_where(s.drop_last(), p)
    }
}

/// Whether some element of `s` satisfies `p`.
pub open spec fn any_where<T>(s: Seq<T>, p: spec_fn(T) -> bool) -> bool {
    exists|i: int| 0 <= i < s.len() && p(#[trigger] s[i])
}

/// The elements of `s` that satisfy `p`, in order.
pub open spec fn keep<T>(s: Seq<T>, p: spec_fn(T) -> bool) -> Seq<T>
    decreases s.len(),
{
    if s.len() == 0 {
        s
    } else if p(s.last()) {
        keep(s.drop_last(), p).push(s.last())
    } else {
        keep(s.drop_last(), p)
    }
}

/// The number of elements of `s` that satisfy `p`.
pub open spec fn count_where<T>(s: Seq<T>, p: spec_fn(T) -> bool) -> nat
    decreases s.len(),
{
    if s.len() == 0 {
        0
    } else if p(s.last()) {
        count_where(s.drop_last(), p) + 1
    } else {
        count_where(s.drop_last(), p)
    }
}

/// What the first index is: within bounds, at an element that satisfies
/// `p` if there is one, and behind none that does.
pub proof fn lemma_first_where<T>(s: Seq<T>, p: spec_fn(T) -> bool)
    ensures
        0 <= first_where(s, p) <= s.len(),
        first_where(s, p) < s.len() ==> p(s[first_where(s, p)]),
        forall|k: int| 0 <= k < first_where(s, p) ==> !p(#[trigger] s[k]),
        first_where(s, p) < s.len() <==> any_where(s, p),
    decreases s.len(),
{
    if s.len() > 0 {
        let t = s.drop_last();
        lemma_first_where(t, p);
        let r = first_where(s, p);
        assert forall|k: int| 0 <= k < r implies !p(#[trigger] s[k]) by {
            if k < t.len() {
                assert(t[k] == s[k]);
            }
        }
        if r < s.len() {
            assert(p(s[r]));
        }
        if any_where(s, p) {
            let i = choose|i: int| 0 <= i < s.len() && p(#[trigger] s[i]);
            if r >= s.len() {
                assert(!p(s[i]));
            }
        }
    }
}

/// An index at an element that satisfies `p`, behind none that does, is
/// the first.
pub proof fn lemma_first_where_is<T>(s: Seq<T>, p: spec_fn(T) -> bool, i: int)
    requires
        0 <= i <= s.len(),
        i < s.len() ==> p(s[i]),
        forall|k: int| 0 <= k < i ==> !p(#[trigger] s[k]),
    ensures
        first_where(s, p) == i,
{
    lemma_first_where(s, p);
    let r = first_where(s, p);
    if r < i {
        assert(!p(s[r]));
    }
}

/// What the last index is: at an element that satisfies `p` if there is
/// one, and before none that does.
pub proof fn lemma_last_where<T>(s: Seq<T>, p: spec_fn(T) -> bool)
    ensures
        -1 <= last_where(s, p) < s.len(),
        last_where(s, p) >= 0 ==> p(s[last_where(s, p)]),
        forall|k: int| last_where(s, p) < k < s.len() ==> !p(#[trigger] s[k]),
        last_where(s, p) >= 0 <==> any_where(s, p),
    decreases s.len(),
{
    if s.len() > 0 {
        let t = s.drop_last();
        lemma_last_where(t, p);
        let r = last_where(s, p);
        if !p(s.last()) {
            assert forall|k: int| r < k < s.len() implies !p(#[trigger] s[k]) by {
                if k < t.len() {
                    assert(t[k] == s[k]);
                }
            }
            if r >= 0 {
                assert(t[r] == s[r]);
            }
        }
        if any_where(s, p) && r < 0 {
            let i = choose|i: int| 0 <= i < s.len() && p(#[trigger] s[i]);
            assert(!p(s[i]));
        }
    }
}

/// An index at an element that satisfies `p`, before none that does, is
/// the last.
pub proof fn lemma_last_where_is<T>(s: Seq<T>, p: spec_fn(T) -> bool, i: int)
    requires
        -1 <= i < s.len(),
        i >= 0 ==> p(s[i]),
        forall|k: int| i < k < s.len() ==> !p(#[trigger] s[k]),
    ensures
        last_where(s, p) == i,
{
    lemma_last_where(s, p);
    let r = last_where(s, p);
    if r > i {
        assert(!p(s[r]));
    }
    if r < i {
        assert(!p(s[i]));
    }
}

} // verus!
