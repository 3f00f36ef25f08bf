//! The lexicographic order on byte strings, and what an ordered key is.

use vstd::prelude::*;

verus! {

/// `a` and `b` agree before position `k`, and there `a` ends or holds the
/// smaller byte.
pub open spec fn less_at(a: Seq<u8>, b: Seq<u8>, k: int) -> bool {
    &&& 0 <= k <= a.len()
    &&& k < b.len()
    &&& forall|i: int| 0 <= i < k ==> a[i] == b[i]
    &&& k == a.len() || a[k] < b[k]
}

/// `a` stands strictly before `b` in the lexicographic order.
pub open spec fn lex_less(a: Seq<u8>, b: Seq<u8>) -> bool {
    exists|k: int| less_at(a, b, k)
}

/// No byte string stands before itself.
pub proof fn lex_less_irreflexive(a: Seq<u8>)
    ensures
        !lex_less(a, a),
{
}

/// The order is transitive.
pub proof fn lex_less_transitive(a: Seq<u8>, b: Seq<u8>, c: Seq<u8>)
    requires
        lex_less(a, b),
        lex_less(b, c),
    ensures
        lex_less(a, c),
{
    let i = choose|k: int| less_at(a, b, k);
    let j = choose|k: int| less_at(b, c, k);
    let k = if i <= j { i } else { j };
    assert(less_at(a, c, k));
}

/// Of two byte strings neither or exactly one stands before the other.
pub proof fn lex_less_asymmetric(a: Seq<u8>, b: Seq<u8>)
    requires
        lex_less(a, b),
    ensures
        !lex_less(b, a),
        a != b,
{
    if lex_less(b, a) {
        lex_less_transitive(a, b, a);
        lex_less_irreflexive(a);
    }
}

/// Two different byte strings are ordered one way or the other.
pub proof fn lex_less_total(a: Seq<u8>, b: Seq<u8>)
    requires
        a != b,
    ensures
        lex_less(a, b) || lex_less(b, a),
    decreases a.len(),
{
    lex_total_from(a, b, 0);
}

proof fn lex_total_from(a: Seq<u8>, b: Seq<u8>, k: int)
    requires
        a != b,
        0 <= k <= a.len(),
        k <= b.len(),
        forall|i: int| 0 <= i < k ==> a[i] == b[i],
    ensures
        lex_less(a, b) || lex_less(b, a),
    decreases a.len() - k,
{
    if k == a.len() && k == b.len() {
        assert(a =~= b);
    } else if k == a.len() {
        assert(less_at(a, b, k));
    } else if k == b.len() {
        assert(less_at(b, a, k));
    } else if a[k] < b[k] {
        assert(less_at(a, b, k));
    } else if b[k] < a[k] {
        assert(less_at(b, a, k));
    } else {
        lex_total_from(a, b, k + 1);
    }
}

/// How one byte string stands to another.
#[derive(Clone, Copy, Debug, PartialEq, Eq, Structural)]
pub enum Rank {
    Before,
    Same,
    After,
}

/// Compares two byte strings lexicographically.
pub fn rank(a: &[u8], b: &[u8]) -> (r: Rank)
    ensures
        r == Rank::Before <==> lex_less(a@, b@),
        r == Rank::Same <==> a@ == b@,
        r == Rank::After <==> lex_less(b@, a@),
{
    let mut k: usize = 0;
    while k < a.len() && k < b.len()
        invariant
            k <= a.len(),
            k <= b.len(),
            forall|i: int| 0 <= i < k ==> a@[i] == b@[i],
        decreases a.len() - k,
    {
        if a[k] < b[k] {
            proof {
                assert(less_at(a@, b@, k as int));
                lex_less_asymmetric(a@, b@);
            }
            return Rank::Before;
        }
        if b[k] < a[k] {
            proof {
                assert(less_at(b@, a@, k as int));
                lex_less_asymmetric(b@, a@);
            }
            return Rank::After;
        }
        k = k + 1;
    }
    if k < b.len() {
        proof {
            assert(less_at(a@, b@, k as int));
            lex_less_asymmetric(a@, b@);
        }
        Rank::Before
    } else if k < a.len() {
        proof {
            assert(less_at(b@, a@, k as int));
            lex_less_asymmetric(b@, a@);
        }
        Rank::After
    } else {
        proof {
            assert(a@ =~= b@);
            lex_less_irreflexive(a@);
        }
        Rank::Same
    }
}

/// Whether two byte strings are equal.
pub fn same_bytes(a: &[u8], b: &[u8]) -> (r: bool)
    ensures
        r == (a@ == b@),
{
    match rank(a, b) {
        Rank::Same => true,
        _ => false,
    }
}

/// A key with a strict total order, and the executable comparison that decides
/// it.
pub trait OrderedKey: Copy {
    /// `self` stands strictly before `other`.
    spec fn precedes(self, other: Self) -> bool;

    /// No key stands before itself.
    proof fn irreflexive(a: Self)
        ensures
            !a.precedes(a),
    ;

    /// The order is transitive.
    proof fn transitive(a: Self, b: Self, c: Self)
        requires
            a.precedes(b),
            b.precedes(c),
        ensures
            a.precedes(c),
    ;

    /// Compares two keys.
    fn rank(&self, other: &Self) -> (r: Rank)
        ensures
            r == Rank::Before <==> self.precedes(*other),
            r == Rank::Same <==> *self == *other,
            r == Rank::After <==> other.precedes(*self),
    ;
}

} // verus!
