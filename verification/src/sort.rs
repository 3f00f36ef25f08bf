//! Stable sorting.

use vstd::prelude::*;

verus! {

/// A way to sort values of type `T`: a strict weak order with its executable
/// test.
pub trait SortOrder<T> {
    /// `a` has to stand before `b`.
    spec fn before(a: T, b: T) -> bool;

    /// No value stands before itself.
    proof fn irreflexive(a: T)
        ensures
            !Self::before(a, a),
    ;

    /// The order is transitive.
    proof fn transitive(a: T, b: T, c: T)
        requires
            Self::before(a, b),
            Self::before(b, c),
        ensures
            Self::before(a, c),
    ;

    /// Values that need not stand before one another fall into classes.
    proof fn negatively_transitive(a: T, b: T, c: T)
        requires
            !Self::before(a, b),
            !Self::before(b, c),
        ensures
            !Self::before(a, c),
    ;

    /// Tests the order.
    fn is_before(a: &T, b: &T) -> (r: bool)
        ensures
            r == Self::before(*a, *b),
    ;
}

/// No value stands before an earlier one.
pub open spec fn sorted<T, O: SortOrder<T>>(s: Seq<T>) -> bool {
    forall|i: int, j: int| 0 <= i < j < s.len() ==> !O::before(#[trigger] s[j], #[trigger] s[i])
}

/// The place of `x` in a sorted sequence: behind all that need not stand after
/// it.
pub open spec fn place<T, O: SortOrder<T>>(s: Seq<T>, x: T) -> int
    decreases s.len(),
{
    if s.len() == 0 {
        0
    } else if O::before(x, s.last()) {
        place::<T, O>(s.drop_last(), x)
    } else {
        s.len() as int
    }
}

/// The values of `s` in order, equal ones as they came.
pub open spec fn stable_sorted<T, O: SortOrder<T>>(s: Seq<T>) -> Seq<T>
    decreases s.len(),
{
    if s.len() == 0 {
        s
    } else {
        let rest = stable_sorted::<T, O>(s.drop_last());
        rest.insert(place::<T, O>(rest, s.last()), s.last())
    }
}

proof fn place_splits<T, O: SortOrder<T>>(s: Seq<T>, x: T)
    requires
        sorted::<T, O>(s),
    ensures
        0 <= place::<T, O>(s, x) <= s.len(),
        forall|i: int| 0 <= i < place::<T, O>(s, x) ==> !O::before(x, #[trigger] s[i]),
        forall|i: int| place::<T, O>(s, x) <= i < s.len() ==> O::before(x, #[trigger] s[i]),
    decreases s.len(),
{
    if s.len() > 0 {
        let short = s.drop_last();
        if O::before(x, s.last()) {
            assert forall|i: int, j: int| 0 <= i < j < short.len() implies !O::before(
                #[trigger] short[j],
                #[trigger] short[i],
            ) by {
                assert(short[j] == s[j] && short[i] == s[i]);
            }
            place_splits::<T, O>(short, x);
            assert forall|i: int| 0 <= i < place::<T, O>(s, x) implies !O::before(
                x,
                #[trigger] s[i],
            ) by {
                assert(short[i] == s[i]);
            }
            assert forall|i: int| place::<T, O>(s, x) <= i < s.len() implies O::before(
                x,
                #[trigger] s[i],
            ) by {
                if i < s.len() - 1 {
                    assert(short[i] == s[i]);
                }
            }
        } else {
            assert forall|i: int| 0 <= i < s.len() implies !O::before(x, #[trigger] s[i]) by {
                if i < s.len() - 1 {
                    assert(!O::before(s[s.len() - 1], s[i]));
                    O::negatively_transitive(x, s.last(), s[i]);
                }
            }
        }
    }
}

/// A stable sort sorts.
pub proof fn stable_sorted_is_sorted<T, O: SortOrder<T>>(s: Seq<T>)
    ensures
        sorted::<T, O>(stable_sorted::<T, O>(s)),
    decreases s.len(),
{
    if s.len() > 0 {
        let rest = stable_sorted::<T, O>(s.drop_last());
        let x = s.last();
        stable_sorted_is_sorted::<T, O>(s.drop_last());
        place_splits::<T, O>(rest, x);
        let p = place::<T, O>(rest, x);
        let out = rest.insert(p, x);
        assert forall|i: int, j: int| 0 <= i < j < out.len() implies !O::before(
            #[trigger] out[j],
            #[trigger] out[i],
        ) by {
            if j < p {
                assert(out[i] == rest[i] && out[j] == rest[j]);
            } else if j == p {
                assert(out[i] == rest[i]);
            } else {
                assert(out[j] == rest[j - 1]);
                if i < p {
                    assert(out[i] == rest[i]);
                } else if i == p {
                    if O::before(out[j], out[i]) {
                        O::transitive(x, rest[j - 1], x);
                        O::irreflexive(x);
                    }
                } else {
                    assert(out[i] == rest[i - 1]);
                }
            }
        }
    }
}

/// A stable sort neither adds nor drops a value.
pub proof fn stable_sorted_is_permutation<T, O: SortOrder<T>>(s: Seq<T>)
    ensures
        stable_sorted::<T, O>(s).to_multiset() == s.to_multiset(),
        stable_sorted::<T, O>(s).len() == s.len(),
        forall|x: T| #[trigger] stable_sorted::<T, O>(s).contains(x) <==> s.contains(x),
    decreases s.len(),
{
    broadcast use vstd::seq_lib::group_to_multiset_ensures;

    if s.len() > 0 {
        let rest = stable_sorted::<T, O>(s.drop_last());
        let x = s.last();
        stable_sorted_is_permutation::<T, O>(s.drop_last());
        stable_sorted_is_sorted::<T, O>(s.drop_last());
        place_splits::<T, O>(rest, x);
        let p = place::<T, O>(rest, x);
        let out = rest.insert(p, x);
        vstd::seq_lib::to_multiset_insert(rest, p, x);
        assert(s =~= s.drop_last().push(x));
        assert(out.to_multiset() =~= s.to_multiset());
    }
    assert forall|x: T| #[trigger] stable_sorted::<T, O>(s).contains(x) <==> s.contains(x) by {
        let out = stable_sorted::<T, O>(s);
        assert(out.contains(x) <==> out.to_multiset().count(x) > 0);
        assert(s.contains(x) <==> s.to_multiset().count(x) > 0);
    }
}

/// Sorts, keeping equal values as they came.
pub fn stable_sort<T, O: SortOrder<T>>(values: Vec<T>) -> (r: Vec<T>)
    ensures
        r@ == stable_sorted::<T, O>(values@),
        sorted::<T, O>(r@),
        r@.to_multiset() == values@.to_multiset(),
        r@.len() == values@.len(),
{
    let ghost all = values@;
    let mut left = values;
    let mut out: Vec<T> = Vec::new();
    let ghost mut done: int = 0;
    while left.len() > 0
        invariant
            0 <= done <= all.len(),
            left@ == all.skip(done),
            out@ == stable_sorted::<T, O>(all.take(done)),
        decreases left.len(),
    {
        let x = left.remove(0);
        proof {
            stable_sorted_is_sorted::<T, O>(all.take(done));
            place_splits::<T, O>(out@, x);
            assert(all.take(done + 1).drop_last() =~= all.take(done));
            assert(all.take(done + 1).last() == x);
            assert(left@ =~= all.skip(done + 1));
        }
        let mut at: usize = out.len();
        proof {
            assert(out@.take(at as int) =~= out@);
        }
        while at > 0 && O::is_before(&x, &out[at - 1])
            invariant
                at <= out@.len(),
                place::<T, O>(out@.take(at as int), x) == place::<T, O>(out@, x),
            decreases at,
        {
            proof {
                assert(out@.take(at as int).drop_last() =~= out@.take(at - 1));
            }
            at = at - 1;
        }
        proof {
            if at > 0 {
                assert(out@.take(at as int).last() == out@[at - 1]);
            }
            assert(place::<T, O>(out@, x) == at);
        }
        out.insert(at, x);
        proof {
            done = done + 1;
        }
    }
    proof {
        assert(all.take(done) =~= all);
        stable_sorted_is_sorted::<T, O>(all);
        stable_sorted_is_permutation::<T, O>(all);
    }
    out
}

} // verus!
