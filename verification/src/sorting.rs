//! Stable sorting by a strict order on views: the specification as a
//! sequence function, and an insertion sort that computes it.

use crate::model::views_of;
use vstd::prelude::*;

verus! {

/// A strict order on the views of `T`, with the test that decides it.
pub trait Order<T: View> {
    /// Whether `a` sorts strictly before `b`.
    spec fn before(a: T::V, b: T::V) -> bool;

    /// Decides whether `a` sorts strictly before `b`.
    fn is_before(a: &T, b: &T) -> (r: bool)
        ensures
            r == Self::before(a@, b@),
    ;
}

/// `s` with `x` put behind the last element that `x` does not sort before:
/// behind its equals, so that earlier elements stay first.
pub open spec fn insert_by<T: View, O: Order<T>>(s: Seq<T::V>, x: T::V) -> Seq<T::V>
    decreases s.len(),
{
    if s.len() > 0 && O::before(x, s.last()) {
        insert_by::<T, O>(s.drop_last(), x).push(s.last())
    } else {
        s.push(x)
    }
}

/// `s` sorted by `O`, elements that are not ordered staying in their order
/// of arrival.
pub open spec fn stable_sort<T: View, O: Order<T>>(s: Seq<T::V>) -> Seq<T::V>
    decreases s.len(),
{
    if s.len() == 0 {
        s
    } else {
        insert_by::<T, O>(stable_sort::<T, O>(s.drop_last()), s.last())
    }
}

/// Inserting at the place found by scanning from the back.
pub proof fn lemma_insert_at<T: View, O: Order<T>>(s: Seq<T::V>, x: T::V, j: int)
    requires
        0 <= j <= s.len(),
        forall|k: int| j <= k < s.len() ==> O::before(x, #[trigger] s[k]),
        j > 0 ==> !O::before(x, s[j - 1]),
    ensures
        insert_by::<T, O>(s, x) == s.insert(j, x),
    decreases s.len() - j,
{
    if j == s.len() {
        assert(s.insert(j, x) =~= s.push(x));
    } else {
        let t = s.drop_last();
        lemma_insert_at::<T, O>(t, x, j);
        assert(t.insert(j, x).push(s.last()) =~= s.insert(j, x));
    }
}

/// Inserting adds one element.
pub proof fn lemma_insert_len<T: View, O: Order<T>>(s: Seq<T::V>, x: T::V)
    ensures
        insert_by::<T, O>(s, x).len() == s.len() + 1,
    decreases s.len(),
{
    if s.len() > 0 && O::before(x, s.last()) {
        lemma_insert_len::<T, O>(s.drop_last(), x);
    }
}

/// Sorting neither loses an element nor makes one up.
pub proof fn lemma_stable_sort_contains<T: View, O: Order<T>>(s: Seq<T::V>)
    ensures
        forall|x: T::V| #[trigger] stable_sort::<T, O>(s).contains(x) <==> s.contains(x),
    decreases s.len(),
{
    if s.len() > 0 {
        let t = s.drop_last();
        let inner = stable_sort::<T, O>(t);
        let out = stable_sort::<T, O>(s);
        lemma_stable_sort_contains::<T, O>(t);
        lemma_insert_contains::<T, O>(inner, s.last());
        assert(out == insert_by::<T, O>(inner, s.last()));
        assert forall|x: T::V| #[trigger] out.contains(x) <==> s.contains(x) by {
            if s.contains(x) {
                let i = choose|i: int| 0 <= i < s.len() && s[i] == x;
                if i < t.len() {
                    assert(t[i] == x);
                    assert(t.contains(x));
                    assert(inner.contains(x));
                }
            }
            if out.contains(x) && x != s.last() {
                assert(inner.contains(x));
                assert(t.contains(x));
                let i = choose|i: int| 0 <= i < t.len() && t[i] == x;
                assert(s[i] == x);
            }
            if x == s.last() {
                assert(s[s.len() - 1] == x);
            }
        }
    }
}

/// Inserting adds the element and nothing else.
pub proof fn lemma_insert_contains<T: View, O: Order<T>>(s: Seq<T::V>, x: T::V)
    ensures
        insert_by::<T, O>(s, x).contains(x),
        forall|y: T::V| s.contains(y) ==> #[trigger] insert_by::<T, O>(s, x).contains(y),
        forall|y: T::V| #[trigger] insert_by::<T, O>(s, x).contains(y) ==> y == x || s.contains(y),
    decreases s.len(),
{
    let out = insert_by::<T, O>(s, x);
    lemma_insert_len::<T, O>(s, x);
    if s.len() > 0 && O::before(x, s.last()) {
        let t = s.drop_last();
        let inner = insert_by::<T, O>(t, x);
        lemma_insert_contains::<T, O>(t, x);
        lemma_insert_len::<T, O>(t, x);
        assert(out == inner.push(s.last()));
        assert(inner.contains(x));
        let ix = choose|i: int| 0 <= i < inner.len() && inner[i] == x;
        assert(out[ix] == x);
        assert forall|y: T::V| s.contains(y) implies #[trigger] out.contains(y) by {
            let j = choose|j: int| 0 <= j < s.len() && s[j] == y;
            if j < t.len() {
                assert(t[j] == y);
                assert(t.contains(y));
                assert(inner.contains(y));
                let i = choose|i: int| 0 <= i < inner.len() && inner[i] == y;
                assert(out[i] == y);
            } else {
                assert(out[out.len() - 1] == y);
            }
        }
        assert forall|y: T::V| #[trigger] out.contains(y) implies y == x || s.contains(y) by {
            let i = choose|i: int| 0 <= i < out.len() && out[i] == y;
            if i < inner.len() {
                assert(inner[i] == y);
                assert(inner.contains(y));
                if t.contains(y) {
                    let j = choose|j: int| 0 <= j < t.len() && t[j] == y;
                    assert(s[j] == y);
                }
            } else {
                assert(s[s.len() - 1] == y);
            }
        }
    } else {
        assert(out == s.push(x));
        assert(out[out.len() - 1] == x);
        assert forall|y: T::V| s.contains(y) implies #[trigger] out.contains(y) by {
            let j = choose|j: int| 0 <= j < s.len() && s[j] == y;
            assert(out[j] == y);
        }
        assert forall|y: T::V| #[trigger] out.contains(y) implies y == x || s.contains(y) by {
            let i = choose|i: int| 0 <= i < out.len() && out[i] == y;
            if i < s.len() {
                assert(s[i] == y);
            }
        }
    }
}

/// Whether `O` is a strict weak order: of two elements at most one sorts
/// before the other, and not sorting behind carries over.
pub open spec fn strict_weak<T: View, O: Order<T>>() -> bool {
    &&& forall|a: T::V, b: T::V| #[trigger] O::before(a, b) ==> !O::before(b, a)
    &&& forall|a: T::V, b: T::V, c: T::V|
        #![trigger O::before(b, a), O::before(c, b)]
        !O::before(b, a) && !O::before(c, b) ==> !O::before(c, a)
}

/// Whether `s` is in the order of `O`: no element sorts before one that
/// stands before it.
pub open spec fn in_order<T: View, O: Order<T>>(s: Seq<T::V>) -> bool {
    forall|i: int, j: int| 0 <= i < j < s.len() ==> !O::before(#[trigger] s[j], #[trigger] s[i])
}

/// Inserting into a sequence that is in order leaves it in order.
pub proof fn lemma_insert_in_order<T: View, O: Order<T>>(s: Seq<T::V>, x: T::V)
    requires
        strict_weak::<T, O>(),
        in_order::<T, O>(s),
    ensures
        in_order::<T, O>(insert_by::<T, O>(s, x)),
    decreases s.len(),
{
    let out = insert_by::<T, O>(s, x);
    lemma_insert_len::<T, O>(s, x);
    if s.len() > 0 && O::before(x, s.last()) {
        let t = s.drop_last();
        let inner = insert_by::<T, O>(t, x);
        assert(in_order::<T, O>(t)) by {
            assert forall|i: int, j: int| 0 <= i < j < t.len() implies !O::before(
                #[trigger] t[j],
                #[trigger] t[i],
            ) by {
                assert(t[i] == s[i] && t[j] == s[j]);
            }
        }
        lemma_insert_in_order::<T, O>(t, x);
        lemma_insert_len::<T, O>(t, x);
        lemma_insert_contains::<T, O>(t, x);
        assert(out == inner.push(s.last()));
        assert forall|i: int, j: int| 0 <= i < j < out.len() implies !O::before(
            #[trigger] out[j],
            #[trigger] out[i],
        ) by {
            if j < inner.len() {
                assert(out[i] == inner[i] && out[j] == inner[j]);
            } else {
                assert(out[j] == s.last());
                assert(out[i] == inner[i]);
                assert(inner.contains(inner[i]));
                if inner[i] == x {
                    assert(O::before(x, s.last()));
                } else {
                    assert(t.contains(inner[i]));
                    let k = choose|k: int| 0 <= k < t.len() && t[k] == inner[i];
                    assert(s[k] == inner[i]);
                    assert(!O::before(s[s.len() - 1], s[k]));
                }
            }
        }
    } else {
        assert(out == s.push(x));
        assert forall|i: int, j: int| 0 <= i < j < out.len() implies !O::before(
            #[trigger] out[j],
            #[trigger] out[i],
        ) by {
            if j < s.len() {
                assert(out[i] == s[i] && out[j] == s[j]);
            } else {
                assert(out[j] == x);
                assert(out[i] == s[i]);
                let last = s[s.len() - 1];
                assert(!O::before(x, last));
                if i < s.len() - 1 {
                    assert(!O::before(last, s[i]));
                    assert(!O::before(x, s[i]));
                }
            }
        }
    }
}

/// What is sorted by a strict weak order is in that order.
pub proof fn lemma_stable_sort_in_order<T: View, O: Order<T>>(s: Seq<T::V>)
    requires
        strict_weak::<T, O>(),
    ensures
        in_order::<T, O>(stable_sort::<T, O>(s)),
    decreases s.len(),
{
    if s.len() > 0 {
        lemma_stable_sort_in_order::<T, O>(s.drop_last());
        lemma_insert_in_order::<T, O>(stable_sort::<T, O>(s.drop_last()), s.last());
    }
}

/// Sorts `v` by `O`, stably.
pub fn sort_vec<T: View, O: Order<T>>(v: Vec<T>) -> (out: Vec<T>)
    ensures
        views_of(out@) == stable_sort::<T, O>(views_of(v@)),
        strict_weak::<T, O>() ==> in_order::<T, O>(views_of(out@)),
{
    let ghost all = views_of(v@);
    proof {
        if strict_weak::<T, O>() {
            lemma_stable_sort_in_order::<T, O>(all);
        }
    }
    let mut out: Vec<T> = Vec::new();
    assert(views_of(out@) =~= stable_sort::<T, O>(all.take(0)));
    for x in it: v
        invariant
            all == views_of(it.seq()),
            views_of(out@) == stable_sort::<T, O>(all.take(it.index() as int)),
    {
        let ghost sorted = views_of(out@);
        let mut j: usize = out.len();
        while j > 0 && O::is_before(&x, &out[j - 1])
            invariant
                j <= out@.len(),
                sorted == views_of(out@),
                forall|k: int| j <= k < sorted.len() ==> O::before(x@, #[trigger] sorted[k]),
            decreases j,
        {
            j -= 1;
        }
        proof {
            lemma_insert_at::<T, O>(sorted, x@, j as int);
            assert(all.take(it.index() + 1).drop_last() =~= all.take(it.index() as int));
        }
        out.insert(j, x);
        assert(views_of(out@) =~= sorted.insert(j as int, x@));
    }
    assert(all.take(all.len() as int) =~= all);
    out
}


/// The order of the numbers.
pub struct Ascending;

impl Order<u8> for Ascending {
    open spec fn before(a: u8, b: u8) -> bool {
        a < b
    }

    fn is_before(a: &u8, b: &u8) -> (r: bool) {
        *a < *b
    }
}

} // verus!
