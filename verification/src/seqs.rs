//! Sequence filters used by the store's query contracts.
//!
//! `keep` selects the elements satisfying a predicate in their stored order
//! (oldest first); `keep_rev` selects them in reverse order (newest first).
//! The lemmas below relate the two to pushes and single-step peeling, which
//! is how the query loops walk the tables.

use vstd::prelude::*;

verus! {

/// The elements of `s` satisfying `p`, in order.
pub open spec fn keep<T>(s: Seq<T>, p: spec_fn(T) -> bool) -> Seq<T>
    decreases s.len(),
{
    if s.len() == 0 {
        Seq::empty()
    } else {
        (if p(s.first()) {
            seq![s.first()]
        } else {
            Seq::empty()
        }) + keep(s.drop_first(), p)
    }
}

/// The elements of `s` satisfying `p`, in reverse order.
pub open spec fn keep_rev<T>(s: Seq<T>, p: spec_fn(T) -> bool) -> Seq<T>
    decreases s.len(),
{
    if s.len() == 0 {
        Seq::empty()
    } else {
        (if p(s.last()) {
            seq![s.last()]
        } else {
            Seq::empty()
        }) + keep_rev(s.drop_last(), p)
    }
}

/// Appending an element extends the in-order selection at its end.
pub proof fn lemma_keep_push<T>(s: Seq<T>, p: spec_fn(T) -> bool, x: T)
    ensures
        keep(s.push(x), p) == keep(s, p) + (if p(x) {
            seq![x]
        } else {
            Seq::<T>::empty()
        }),
    decreases s.len(),
{
    if s.len() == 0 {
        assert(s.push(x).first() == x);
        assert(s.push(x).drop_first() =~= Seq::<T>::empty());
        assert(s.push(x).drop_first() == Seq::<T>::empty());
        assert(keep(Seq::<T>::empty(), p) == Seq::<T>::empty());
        assert(keep(s.push(x), p) == (if p(x) {
            seq![x]
        } else {
            Seq::<T>::empty()
        }) + keep(Seq::<T>::empty(), p));
        assert(keep(s, p) == Seq::<T>::empty());
        assert(keep(s.push(x), p) =~= keep(s, p) + (if p(x) {
            seq![x]
        } else {
            Seq::<T>::empty()
        }));
    } else {
        assert(s.push(x).first() == s.first());
        assert(s.push(x).drop_first() =~= s.drop_first().push(x));
        lemma_keep_push(s.drop_first(), p, x);
        assert(keep(s.push(x), p) =~= keep(s, p) + (if p(x) {
            seq![x]
        } else {
            Seq::<T>::empty()
        }));
    }
}

/// Peeling the first element takes the end of the reverse-order selection.
pub proof fn lemma_keep_rev_drop_first<T>(s: Seq<T>, p: spec_fn(T) -> bool)
    requires
        s.len() > 0,
    ensures
        keep_rev(s, p) == keep_rev(s.drop_first(), p) + (if p(s.first()) {
            seq![s.first()]
        } else {
            Seq::<T>::empty()
        }),
    decreases s.len(),
{
    if s.len() == 1 {
        assert(s.drop_first() =~= Seq::<T>::empty());
        assert(s.drop_last() =~= Seq::<T>::empty());
        assert(keep_rev(Seq::<T>::empty(), p) == Seq::<T>::empty());
        assert(s.last() == s.first());
        assert(keep_rev(s, p) =~= keep_rev(s.drop_first(), p) + (if p(s.first()) {
            seq![s.first()]
        } else {
            Seq::<T>::empty()
        }));
    } else {
        lemma_keep_rev_drop_first(s.drop_last(), p);
        assert(s.drop_last().first() == s.first());
        assert(s.drop_last().drop_first() =~= s.drop_first().drop_last());
        assert(s.drop_first().last() == s.last());
        assert(keep_rev(s, p) =~= keep_rev(s.drop_first(), p) + (if p(s.first()) {
            seq![s.first()]
        } else {
            Seq::<T>::empty()
        }));
    }
}

/// A selection holds exactly the elements of `s` that satisfy `p`.
pub proof fn lemma_keep_contains<T>(s: Seq<T>, p: spec_fn(T) -> bool, x: T)
    ensures
        keep(s, p).contains(x) <==> s.contains(x) && p(x),
    decreases s.len(),
{
    if s.len() > 0 {
        lemma_keep_contains(s.drop_first(), p, x);
        assert(s.contains(x) <==> s.first() == x || s.drop_first().contains(x)) by {
            if s.contains(x) {
                let i = choose|i: int| 0 <= i < s.len() && s[i] == x;
                if i > 0 {
                    assert(s.drop_first()[i - 1] == x);
                }
            }
            if s.drop_first().contains(x) {
                let i = choose|i: int| 0 <= i < s.drop_first().len() && s.drop_first()[i] == x;
                assert(s[i + 1] == x);
            }
        }
        if keep(s, p).contains(x) {
            let i = choose|i: int| 0 <= i < keep(s, p).len() && keep(s, p)[i] == x;
            if p(s.first()) && i == 0 {
                assert(x == s.first());
            } else {
                let off: int = if p(s.first()) {
                    1
                } else {
                    0
                };
                assert(keep(s.drop_first(), p)[i - off] == x);
            }
        }
        if s.contains(x) && p(x) {
            if s.first() == x {
                assert(keep(s, p)[0] == x);
            } else {
                assert(keep(s.drop_first(), p).contains(x));
                let i = choose|i: int|
                    0 <= i < keep(s.drop_first(), p).len() && keep(s.drop_first(), p)[i] == x;
                let off: int = if p(s.first()) {
                    1
                } else {
                    0
                };
                assert(keep(s, p)[i + off] == x);
            }
        }
    }
}

/// The reverse-order selection holds exactly the elements of `s` that
/// satisfy `p`.
pub proof fn lemma_keep_rev_contains<T>(s: Seq<T>, p: spec_fn(T) -> bool, x: T)
    ensures
        keep_rev(s, p).contains(x) <==> s.contains(x) && p(x),
    decreases s.len(),
{
    if s.len() > 0 {
        lemma_keep_rev_contains(s.drop_last(), p, x);
        assert(s.contains(x) <==> s.last() == x || s.drop_last().contains(x)) by {
            if s.contains(x) {
                let i = choose|i: int| 0 <= i < s.len() && s[i] == x;
                if i < s.len() - 1 {
                    assert(s.drop_last()[i] == x);
                }
            }
            if s.drop_last().contains(x) {
                let i = choose|i: int| 0 <= i < s.drop_last().len() && s.drop_last()[i] == x;
                assert(s[i] == x);
            }
        }
        if keep_rev(s, p).contains(x) {
            let i = choose|i: int| 0 <= i < keep_rev(s, p).len() && keep_rev(s, p)[i] == x;
            if p(s.last()) && i == 0 {
                assert(x == s.last());
            } else {
                let off: int = if p(s.last()) {
                    1
                } else {
                    0
                };
                assert(keep_rev(s.drop_last(), p)[i - off] == x);
            }
        }
        if s.contains(x) && p(x) {
            if s.last() == x {
                assert(keep_rev(s, p)[0] == x);
            } else {
                assert(keep_rev(s.drop_last(), p).contains(x));
                let i = choose|i: int|
                    0 <= i < keep_rev(s.drop_last(), p).len() && keep_rev(s.drop_last(), p)[i]
                        == x;
                let off: int = if p(s.last()) {
                    1
                } else {
                    0
                };
                assert(keep_rev(s, p)[i + off] == x);
            }
        }
    }
}

} // verus!
