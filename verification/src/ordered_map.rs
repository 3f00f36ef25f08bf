//! A map from ordered keys to values, walked in key order.

use crate::order::{OrderedKey, Rank};
use vstd::prelude::*;

verus! {

/// A map whose entries lie in strictly ascending key order.
#[derive(Clone, Debug, PartialEq, Eq)]
pub struct OrderedMap<K, V> {
    entries: Vec<(K, V)>,
}

/// Row `i` stands under `key`.
pub open spec fn key_at<K, V>(rows: Seq<(K, V)>, key: K, i: int) -> bool {
    0 <= i < rows.len() && rows[i].0 == key
}

/// Some row stands under `key`.
pub open spec fn has_key<K, V>(rows: Seq<(K, V)>, key: K) -> bool {
    exists|i: int| key_at(rows, key, i)
}

/// The keys ascend strictly.
pub open spec fn ascending<K: OrderedKey, V>(rows: Seq<(K, V)>) -> bool {
    forall|i: int, j: int|
        #![trigger rows[i], rows[j]]
        0 <= i < j < rows.len() ==> rows[i].0.precedes(rows[j].0) && rows[i].0 != rows[j].0
}

/// The map that a sequence of rows stands for.
pub open spec fn rows_map<K, V>(rows: Seq<(K, V)>) -> Map<K, V> {
    Map::new(|k: K| has_key(rows, k), |k: K| rows[choose|i: int| key_at(rows, k, i)].1)
}

impl<K, V> View for OrderedMap<K, V> {
    type V = Map<K, V>;

    open spec fn view(&self) -> Map<K, V> {
        rows_map(self.rows())
    }
}

/// In ascending rows each row is an entry of the map, and the map holds nothing
/// else.
pub proof fn rows_are_entries<K: OrderedKey, V>(rows: Seq<(K, V)>)
    requires
        ascending(rows),
    ensures
        forall|i: int|
            0 <= i < rows.len() ==> rows_map(rows).contains_key((#[trigger] rows[i]).0)
                && rows_map(rows)[rows[i].0] == rows[i].1,
        forall|k: K| #[trigger] rows_map(rows).contains_key(k) <==> has_key(rows, k),
{
    assert forall|i: int| 0 <= i < rows.len() implies rows_map(rows).contains_key(
        (#[trigger] rows[i]).0,
    ) && rows_map(rows)[rows[i].0] == rows[i].1 by {
        assert(key_at(rows, rows[i].0, i));
        let j = choose|j: int| key_at(rows, rows[i].0, j);
        assert(key_at(rows, rows[i].0, j));
        if j < i {
            assert(rows[j].0 != rows[i].0);
        } else if i < j {
            assert(rows[i].0 != rows[j].0);
        }
    }
}

/// The rows of a map in key order.
pub open spec fn rows_of<K: OrderedKey, V>(m: Map<K, V>) -> Seq<(K, V)> {
    choose|rows: Seq<(K, V)>| ascending(rows) && rows_map(rows) == m
}

/// A map's rows in key order are the only ones.
pub proof fn rows_are_rows_of<K: OrderedKey, V>(rows: Seq<(K, V)>)
    requires
        ascending(rows),
    ensures
        rows_of(rows_map(rows)) == rows,
{
    let m = rows_map(rows);
    assert(ascending(rows) && rows_map(rows) == m);
    let picked = rows_of(m);
    assert(ascending(picked) && rows_map(picked) == m);
    rows_are_determined(picked, rows);
}

/// There are as many rows as keys.
pub proof fn rows_count<K: OrderedKey, V>(rows: Seq<(K, V)>)
    requires
        ascending(rows),
    ensures
        rows_map(rows).dom().finite(),
        rows_map(rows).dom().len() == rows.len(),
    decreases rows.len(),
{
    rows_are_entries(rows);
    if rows.len() == 0 {
        assert(rows_map(rows).dom() =~= Set::<K>::empty());
    } else {
        rows_without_last(rows);
        rows_count(rows.drop_last());
        let key = rows.last().0;
        assert(rows_map(rows).contains_key(rows[rows.len() - 1].0));
        assert(rows_map(rows).dom() =~= rows_map(rows.drop_last()).dom().insert(key));
        assert(!rows_map(rows.drop_last()).dom().contains(key));
    }
}

/// Two strictly ascending row sequences that stand for one map are equal.
pub proof fn rows_are_determined<K: OrderedKey, V>(a: Seq<(K, V)>, b: Seq<(K, V)>)
    requires
        ascending(a),
        ascending(b),
        rows_map(a) == rows_map(b),
    ensures
        a == b,
    decreases a.len(),
{
    rows_are_entries(a);
    rows_are_entries(b);
    if a.len() == 0 {
        if b.len() > 0 {
            assert(rows_map(b).contains_key(b[0].0));
            assert(has_key(a, b[0].0));
        }
        assert(a =~= b);
    } else {
        assert(rows_map(a).contains_key(a.last().0));
        assert(has_key(b, a.last().0));
        assert(rows_map(b).contains_key(b.last().0));
        assert(has_key(a, b.last().0));
        let i = choose|i: int| key_at(a, b.last().0, i);
        let j = choose|j: int| key_at(b, a.last().0, j);
        if i < a.len() - 1 && j < b.len() - 1 {
            assert(a[i].0.precedes(a[a.len() - 1].0));
            assert(b[j].0.precedes(b[b.len() - 1].0));
            K::transitive(a.last().0, b.last().0, a.last().0);
            K::irreflexive(a.last().0);
        }
        if i == a.len() - 1 {
            assert(a.last().0 == b.last().0);
        } else {
            assert(j == b.len() - 1);
            assert(a.last().0 == b.last().0);
        }
        let key = a.last().0;
        assert(rows_map(a)[a[a.len() - 1].0] == a[a.len() - 1].1);
        assert(rows_map(b)[b[b.len() - 1].0] == b[b.len() - 1].1);
        assert(a.last() == b.last());
        let a1 = a.drop_last();
        let b1 = b.drop_last();
        rows_without_last(a);
        rows_without_last(b);
        rows_are_determined(a1, b1);
        assert(a =~= a1.push(a.last()));
        assert(b =~= b1.push(b.last()));
    }
}

/// Dropping the last row takes its key out of the map.
pub proof fn rows_without_last<K: OrderedKey, V>(rows: Seq<(K, V)>)
    requires
        ascending(rows),
        rows.len() > 0,
    ensures
        ascending(rows.drop_last()),
        rows_map(rows.drop_last()) == rows_map(rows).remove(rows.last().0),
{
    let short = rows.drop_last();
    assert(short =~= rows.remove(rows.len() - 1));
    rows_removed(rows, rows.len() - 1);
}

/// Taking row `i` out takes its key out of the map.
pub proof fn rows_removed<K: OrderedKey, V>(before: Seq<(K, V)>, i: int)
    requires
        ascending(before),
        0 <= i < before.len(),
    ensures
        ascending(before.remove(i)),
        rows_map(before.remove(i)) == rows_map(before).remove(before[i].0),
{
    let rows = before.remove(i);
    assert forall|a: int, b: int|
        #![trigger rows[a], rows[b]]
        0 <= a < b < rows.len() implies rows[a].0.precedes(rows[b].0) && rows[a].0
        != rows[b].0 by {
        let p = if a < i { a } else { a + 1 };
        let q = if b < i { b } else { b + 1 };
        assert(rows[a] == before[p] && rows[b] == before[q]);
    }
    rows_are_entries(before);
    rows_are_entries(rows);
    let key = before[i].0;
    assert forall|k: K| #[trigger] rows_map(rows).contains_key(k) <==> (k != key && rows_map(
        before,
    ).contains_key(k)) by {
        if rows_map(rows).contains_key(k) {
            let a = choose|a: int| key_at(rows, k, a);
            let p = if a < i { a } else { a + 1 };
            assert(before[p] == rows[a]);
            assert(key_at(before, k, p));
            if p < i {
                assert(before[p].0 != before[i].0);
            } else {
                assert(before[i].0 != before[p].0);
            }
        }
        if k != key && rows_map(before).contains_key(k) {
            let p = choose|p: int| key_at(before, k, p);
            let a = if p < i { p } else { p - 1 };
            assert(rows[a] == before[p]);
            assert(key_at(rows, k, a));
        }
    }
    assert forall|k: K| #[trigger] rows_map(rows).contains_key(k) implies rows_map(rows)[k]
        == rows_map(before)[k] by {
        let a = choose|a: int| key_at(rows, k, a);
        let p = if a < i { a } else { a + 1 };
        assert(rows[a] == before[p]);
        assert(rows_map(rows)[rows[a].0] == rows[a].1);
        assert(rows_map(before)[before[p].0] == before[p].1);
    }
    assert(rows_map(rows) =~= rows_map(before).remove(key));
}

/// Putting a new key in at its place adds it to the map.
pub proof fn rows_inserted<K: OrderedKey, V>(before: Seq<(K, V)>, at: int, key: K, value: V)
    requires
        ascending(before),
        0 <= at <= before.len(),
        forall|i: int| 0 <= i < at ==> (#[trigger] before[i]).0.precedes(key),
        forall|i: int| at <= i < before.len() ==> key.precedes((#[trigger] before[i]).0),
    ensures
        ascending(before.insert(at, (key, value))),
        rows_map(before.insert(at, (key, value))) == rows_map(before).insert(key, value),
{
    let rows = before.insert(at, (key, value));
    assert forall|i: int, j: int|
        #![trigger rows[i], rows[j]]
        0 <= i < j < rows.len() implies rows[i].0.precedes(rows[j].0) && rows[i].0
        != rows[j].0 by {
        if j < at {
            assert(rows[i] == before[i] && rows[j] == before[j]);
        } else if j == at {
            assert(rows[i] == before[i]);
            K::irreflexive(key);
        } else if i < at {
            assert(rows[i] == before[i] && rows[j] == before[j - 1]);
        } else if i == at {
            assert(rows[j] == before[j - 1]);
            K::irreflexive(key);
        } else {
            assert(rows[i] == before[i - 1] && rows[j] == before[j - 1]);
        }
    }
    rows_are_entries(before);
    rows_are_entries(rows);
    assert(rows[at] == (key, value));
    assert forall|k: K| #[trigger] rows_map(rows).contains_key(k) <==> (k == key || rows_map(
        before,
    ).contains_key(k)) by {
        if rows_map(rows).contains_key(k) {
            let i = choose|i: int| key_at(rows, k, i);
            if i != at {
                let h = if i < at { i } else { i - 1 };
                assert(before[h] == rows[i]);
                assert(key_at(before, k, h));
            }
        }
        if k == key {
            assert(key_at(rows, k, at));
        } else if rows_map(before).contains_key(k) {
            let h = choose|h: int| key_at(before, k, h);
            let i = if h < at { h } else { h + 1 };
            assert(rows[i] == before[h]);
            assert(key_at(rows, k, i));
        }
    }
    assert forall|k: K| #[trigger] rows_map(rows).contains_key(k) && k != key implies rows_map(
        rows,
    )[k] == rows_map(before)[k] by {
        assert(rows_map(before).contains_key(k));
        let h = choose|h: int| key_at(before, k, h);
        assert(rows_map(before)[before[h].0] == before[h].1);
        let i = if h < at { h } else { h + 1 };
        assert(rows[i] == before[h]);
        assert(rows_map(rows)[rows[i].0] == rows[i].1);
    }
    assert(rows_map(rows)[rows[at].0] == value);
    assert(rows_map(rows) =~= rows_map(before).insert(key, value));
}

impl<K, V> OrderedMap<K, V> {
    /// The rows in key order.
    pub closed spec fn rows(&self) -> Seq<(K, V)> {
        self.entries@
    }
}

impl<K: OrderedKey, V> OrderedMap<K, V> {
    /// The keys ascend strictly.
    pub open spec fn wf(&self) -> bool {
        ascending(self.rows())
    }

    /// The empty map.
    pub fn new() -> (r: Self)
        ensures
            r.wf(),
            r@ == Map::<K, V>::empty(),
            r.rows() == Seq::<(K, V)>::empty(),
    {
        let r = OrderedMap { entries: Vec::new() };
        assert(r@ =~= Map::<K, V>::empty());
        r
    }

    /// The number of entries.
    pub fn len(&self) -> (n: usize)
        ensures
            n == self.rows().len(),
    {
        self.entries.len()
    }

    /// The key of row `i`.
    pub fn key(&self, i: usize) -> (k: K)
        requires
            i < self.rows().len(),
        ensures
            k == self.rows()[i as int].0,
    {
        self.entries[i].0
    }

    /// The value of row `i`.
    pub fn value(&self, i: usize) -> (v: &V)
        requires
            i < self.rows().len(),
        ensures
            *v == self.rows()[i as int].1,
    {
        &self.entries[i].1
    }

    /// The first row whose key does not stand before `key`, and whether it is
    /// `key`.
    fn lower_bound(&self, key: &K) -> (r: (usize, bool))
        requires
            self.wf(),
        ensures
            r.0 <= self.rows().len(),
            forall|i: int| 0 <= i < r.0 ==> (#[trigger] self.rows()[i]).0.precedes(*key),
            r.1 ==> r.0 < self.rows().len() && self.rows()[r.0 as int].0 == *key,
            !r.1 ==> forall|i: int|
                r.0 <= i < self.rows().len() ==> key.precedes((#[trigger] self.rows()[i]).0),
            r.1 == has_key(self.rows(), *key),
    {
        let mut lo: usize = 0;
        let mut hi: usize = self.entries.len();
        let ghost rows = self.rows();
        while lo < hi
            invariant
                rows == self.rows(),
                rows == self.entries@,
                self.wf(),
                lo <= hi <= rows.len(),
                forall|i: int| 0 <= i < lo ==> (#[trigger] rows[i]).0.precedes(*key),
                forall|i: int| hi <= i < rows.len() ==> key.precedes((#[trigger] rows[i]).0),
            decreases hi - lo,
        {
            let mid: usize = lo + (hi - lo) / 2;
            let position: Rank = self.entries[mid].0.rank(key);
            let ghost at = rows[mid as int].0;
            match position {
                Rank::Same => {
                    proof {
                        assert(key_at(rows, *key, mid as int));
                    }
                    return (mid, true);
                },
                Rank::Before => {
                    proof {
                        assert forall|i: int| 0 <= i < mid + 1 implies (
                        #[trigger] rows[i]).0.precedes(*key) by {
                            if i < mid {
                                K::transitive(rows[i].0, at, *key);
                            }
                        }
                    }
                    lo = mid + 1;
                },
                Rank::After => {
                    proof {
                        assert forall|i: int| mid <= i < rows.len() implies key.precedes(
                            (#[trigger] rows[i]).0,
                        ) by {
                            if mid < i {
                                K::transitive(*key, at, rows[i].0);
                            }
                        }
                    }
                    hi = mid;
                },
            }
        }
        proof {
            if has_key(rows, *key) {
                let i = choose|i: int| key_at(rows, *key, i);
                K::irreflexive(*key);
                assert(rows[i].0 == *key);
            }
        }
        (lo, false)
    }

    /// The row that holds `key`.
    pub fn find(&self, key: &K) -> (r: Option<usize>)
        requires
            self.wf(),
        ensures
            r is Some <==> self@.contains_key(*key),
            r matches Some(i) ==> i < self.rows().len() && self.rows()[i as int].0 == *key
                && self.rows()[i as int].1 == self@[*key],
    {
        proof {
            rows_are_entries(self.rows());
        }
        let (at, found) = self.lower_bound(key);
        if found {
            Some(at)
        } else {
            None
        }
    }

    /// Whether `key` has an entry.
    pub fn contains_key(&self, key: &K) -> (r: bool)
        requires
            self.wf(),
        ensures
            r == self@.contains_key(*key),
    {
        match self.find(key) {
            Some(_) => true,
            None => false,
        }
    }

    /// The value under `key`.
    pub fn get(&self, key: &K) -> (r: Option<&V>)
        requires
            self.wf(),
        ensures
            match r {
                Some(v) => self@.contains_key(*key) && *v == self@[*key],
                None => !self@.contains_key(*key),
            },
    {
        match self.find(key) {
            Some(i) => Some(self.value(i)),
            None => None,
        }
    }

    /// Puts `value` under `key` and hands back what stood there.
    pub fn insert(&mut self, key: K, value: V) -> (r: Option<V>)
        requires
            old(self).wf(),
        ensures
            final(self).wf(),
            final(self)@ == old(self)@.insert(key, value),
            match r {
                Some(v) => old(self)@.contains_key(key) && v == old(self)@[key],
                None => !old(self)@.contains_key(key),
            },
            final(self).rows().len() == old(self).rows().len() + (if old(self)@.contains_key(key) {
                0int
            } else {
                1int
            }),
            !old(self)@.contains_key(key) ==> exists|at: int|
                0 <= at <= old(self).rows().len() && final(self).rows()
                    == #[trigger] old(self).rows().insert(at, (key, value)),
    {
        let ghost before = self.rows();
        proof {
            rows_are_entries(before);
        }
        let (at, found) = self.lower_bound(&key);
        let mut replaced: Option<V> = None;
        if found {
            let (_, gone) = self.entries.remove(at);
            replaced = Some(gone);
            proof {
                rows_removed(before, at as int);
                assert(rows_map(before)[before[at as int].0] == before[at as int].1);
                let rest = before.remove(at as int);
                assert forall|i: int| 0 <= i < at implies (#[trigger] rest[i]).0.precedes(key) by {
                    assert(rest[i] == before[i]);
                }
                assert forall|i: int| at <= i < rest.len() implies key.precedes(
                    (#[trigger] rest[i]).0,
                ) by {
                    assert(rest[i] == before[i + 1]);
                    assert(before[at as int].0.precedes(before[i + 1].0));
                }
            }
        }
        let ghost rest = self.rows();
        self.entries.insert(at, (key, value));
        proof {
            rows_inserted(rest, at as int, key, value);
            assert(self@ =~= old(self)@.insert(key, value));
        }
        replaced
    }

    /// Takes row `i` out.
    pub fn remove_row(&mut self, i: usize) -> (r: (K, V))
        requires
            old(self).wf(),
            i < old(self).rows().len(),
        ensures
            final(self).wf(),
            final(self).rows() == old(self).rows().remove(i as int),
            final(self)@ == old(self)@.remove(old(self).rows()[i as int].0),
            r == old(self).rows()[i as int],
    {
        proof {
            rows_removed(self.rows(), i as int);
        }
        self.entries.remove(i)
    }

    /// Takes the entry of `key` out.
    pub fn remove(&mut self, key: &K) -> (r: Option<V>)
        requires
            old(self).wf(),
        ensures
            final(self).wf(),
            final(self)@ == old(self)@.remove(*key),
            match r {
                Some(v) => old(self)@.contains_key(*key) && v == old(self)@[*key],
                None => !old(self)@.contains_key(*key),
            },
            final(self).rows().len() == old(self).rows().len() - (if old(self)@.contains_key(
                *key,
            ) {
                1int
            } else {
                0int
            }),
    {
        match self.find(key) {
            Some(i) => {
                let (_, v) = self.remove_row(i);
                Some(v)
            },
            None => {
                assert(self@ =~= self@.remove(*key));
                None
            },
        }
    }

    /// Takes every entry out.
    pub fn clear(&mut self)
        ensures
            final(self).wf(),
            final(self)@ == Map::<K, V>::empty(),
            final(self).rows() == Seq::<(K, V)>::empty(),
    {
        self.entries.clear();
        assert(self@ =~= Map::<K, V>::empty());
    }

    /// Whether there is no entry.
    pub fn is_empty(&self) -> (r: bool)
        requires
            self.wf(),
        ensures
            r == (self.rows().len() == 0),
            r == (self@ == Map::<K, V>::empty()),
    {
        proof {
            rows_are_entries(self.rows());
            if self.rows().len() > 0 {
                assert(self@.contains_key(self.rows()[0].0));
            } else {
                assert(self@ =~= Map::<K, V>::empty());
            }
        }
        self.entries.len() == 0
    }
}

impl<K: OrderedKey, V: Copy> OrderedMap<K, V> {
    /// A second map with the same entries.
    pub fn duplicate(&self) -> (r: Self)
        ensures
            r.rows() == self.rows(),
            r@ == self@,
            self.wf() ==> r.wf(),
    {
        let mut entries: Vec<(K, V)> = Vec::new();
        let mut i: usize = 0;
        while i < self.entries.len()
            invariant
                i <= self.entries@.len(),
                entries@ == self.entries@.take(i as int),
            decreases self.entries.len() - i,
        {
            entries.push((self.entries[i].0, self.entries[i].1));
            i = i + 1;
            assert(entries@ =~= self.entries@.take(i as int));
        }
        assert(entries@ =~= self.entries@);
        OrderedMap { entries }
    }
}

} // verus!
