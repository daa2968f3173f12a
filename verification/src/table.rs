//! Small keyed tables and sets that keep the order in which keys first came.

use vstd::prelude::*;
use vstd::string::*;

verus! {

/// A type whose values can be told apart and copied by what they stand for.
pub trait Key: DeepView + Sized {
    /// Whether both stand for the same key.
    fn same(&self, other: &Self) -> (r: bool)
        ensures
            r == (self.deep_view() == other.deep_view()),
    ;

    /// A second value for the same key.
    fn dup(&self) -> (r: Self)
        ensures
            r.deep_view() == self.deep_view(),
    ;
}

impl Key for String {
    fn same(&self, other: &Self) -> (r: bool) {
        *self == *other
    }

    fn dup(&self) -> (r: Self) {
        self.clone()
    }
}

impl Key for u64 {
    fn same(&self, other: &Self) -> (r: bool) {
        *self == *other
    }

    fn dup(&self) -> (r: Self) {
        *self
    }
}

impl<A: Key, B: Key> Key for (A, B) {
    fn same(&self, other: &Self) -> (r: bool) {
        self.0.same(&other.0) && self.1.same(&other.1)
    }

    fn dup(&self) -> (r: Self) {
        (self.0.dup(), self.1.dup())
    }
}

/// Whether `pairs` has a row for `k`.
pub open spec fn has_row<A, B>(pairs: Seq<(A, B)>, k: A) -> bool {
    exists|i: int| 0 <= i < pairs.len() && (#[trigger] pairs[i]).0 == k
}

/// The place of the row for `k`.
pub open spec fn row_of<A, B>(pairs: Seq<(A, B)>, k: A) -> int {
    choose|i: int| 0 <= i < pairs.len() && (#[trigger] pairs[i]).0 == k
}

/// No key has two rows.
pub open spec fn distinct_rows<A, B>(pairs: Seq<(A, B)>) -> bool {
    forall|i: int, j: int|
        0 <= i < j < pairs.len() ==> (#[trigger] pairs[i]).0 != (#[trigger] pairs[j]).0
}

/// The map that `pairs` writes down row by row.
pub open spec fn rows_map<A, B>(pairs: Seq<(A, B)>) -> Map<A, B> {
    Map::new(|k: A| has_row(pairs, k), |k: A| pairs[row_of(pairs, k)].1)
}

/// `pairs` with the row for `k` overwritten, or a new last row.
pub open spec fn put_row<A, B>(pairs: Seq<(A, B)>, k: A, v: B) -> Seq<(A, B)> {
    if has_row(pairs, k) {
        pairs.update(row_of(pairs, k), (k, v))
    } else {
        pairs.push((k, v))
    }
}

/// `pairs` without the row for `k`.
pub open spec fn drop_row<A, B>(pairs: Seq<(A, B)>, k: A) -> Seq<(A, B)> {
    if has_row(pairs, k) {
        pairs.remove(row_of(pairs, k))
    } else {
        pairs
    }
}

/// Each row of `pairs` is found under its key.
pub proof fn lemma_rows_map<A, B>(pairs: Seq<(A, B)>)
    requires
        distinct_rows(pairs),
    ensures
        forall|i: int|
            0 <= i < pairs.len() ==> rows_map(pairs).dom().contains((#[trigger] pairs[i]).0)
                && rows_map(pairs)[pairs[i].0] == pairs[i].1 && row_of(pairs, pairs[i].0) == i,
        forall|k: A| #[trigger]
            rows_map(pairs).dom().contains(k) ==> 0 <= row_of(pairs, k) < pairs.len() && pairs[row_of(
                pairs,
                k,
            )].0 == k && rows_map(pairs)[k] == pairs[row_of(pairs, k)].1,
{
    assert forall|i: int| 0 <= i < pairs.len() implies rows_map(pairs).dom().contains(
        (#[trigger] pairs[i]).0,
    ) && rows_map(pairs)[pairs[i].0] == pairs[i].1 && row_of(pairs, pairs[i].0) == i by {
        let k = pairs[i].0;
        assert(has_row(pairs, k));
        let j = row_of(pairs, k);
        assert(0 <= j < pairs.len() && pairs[j].0 == k);
        if i < j {
            assert(pairs[i].0 != pairs[j].0);
        } else if j < i {
            assert(pairs[j].0 != pairs[i].0);
        }
    }
}

/// Writing a row writes the map's entry.
pub proof fn lemma_put_row<A, B>(pairs: Seq<(A, B)>, k: A, v: B)
    requires
        distinct_rows(pairs),
    ensures
        distinct_rows(put_row(pairs, k, v)),
        rows_map(put_row(pairs, k, v)) == rows_map(pairs).insert(k, v),
{
    let after = put_row(pairs, k, v);
    lemma_rows_map(pairs);
    if has_row(pairs, k) {
        let at = row_of(pairs, k);
        assert(pairs[at].0 == k);
        assert forall|i: int, j: int| 0 <= i < j < after.len() implies (#[trigger] after[i]).0 != (
        #[trigger] after[j]).0 by {
            assert(pairs[i].0 != pairs[j].0);
        }
    } else {
        assert forall|i: int, j: int| 0 <= i < j < after.len() implies (#[trigger] after[i]).0 != (
        #[trigger] after[j]).0 by {
            if j < pairs.len() {
                assert(pairs[i].0 != pairs[j].0);
            } else {
                assert(pairs[i].0 == after[i].0);
            }
        }
    }
    lemma_rows_map(after);
    let new = rows_map(after);
    let want = rows_map(pairs).insert(k, v);
    assert forall|x: A| #[trigger] new.dom().contains(x) == want.dom().contains(x) by {
        if new.dom().contains(x) {
            let i = row_of(after, x);
            assert(after[i].0 == x);
            if x != k {
                assert(pairs[i].0 == x);
            }
        }
        if want.dom().contains(x) {
            if x == k {
                let i = if has_row(pairs, k) { row_of(pairs, k) } else { pairs.len() as int };
                assert(after[i].0 == k);
            } else {
                let i = row_of(pairs, x);
                assert(pairs[i].0 == x);
                assert(after[i].0 == x);
            }
        }
    }
    assert forall|x: A| #[trigger] new.dom().contains(x) implies new[x] == want[x] by {
        let i = row_of(after, x);
        assert(after[i].0 == x);
        if x != k {
            assert(pairs[i] == after[i]);
        }
    }
    assert(new =~= want);
}

/// Dropping a row drops the map's entry.
pub proof fn lemma_drop_row<A, B>(pairs: Seq<(A, B)>, k: A)
    requires
        distinct_rows(pairs),
    ensures
        distinct_rows(drop_row(pairs, k)),
        rows_map(drop_row(pairs, k)) == rows_map(pairs).remove(k),
{
    let after = drop_row(pairs, k);
    lemma_rows_map(pairs);
    if has_row(pairs, k) {
        let at = row_of(pairs, k);
        assert(pairs[at].0 == k);
        assert forall|i: int, j: int| 0 <= i < j < after.len() implies (#[trigger] after[i]).0 != (
        #[trigger] after[j]).0 by {
            let i0 = if i < at { i } else { i + 1 };
            let j0 = if j < at { j } else { j + 1 };
            assert(pairs[i0].0 != pairs[j0].0);
        }
        lemma_rows_map(after);
        let new = rows_map(after);
        let want = rows_map(pairs).remove(k);
        assert forall|x: A| #[trigger] new.dom().contains(x) == want.dom().contains(x) by {
            if new.dom().contains(x) {
                let i = row_of(after, x);
                let i0 = if i < at { i } else { i + 1 };
                assert(pairs[i0] == after[i]);
            }
            if want.dom().contains(x) {
                let i0 = row_of(pairs, x);
                let i = if i0 < at { i0 } else { i0 - 1 };
                assert(after[i] == pairs[i0]);
            }
        }
        assert forall|x: A| #[trigger] new.dom().contains(x) implies new[x] == want[x] by {
            let i = row_of(after, x);
            let i0 = if i < at { i } else { i + 1 };
            assert(pairs[i0] == after[i]);
        }
        assert(new =~= want);
    } else {
        assert(rows_map(pairs) =~= rows_map(pairs).remove(k));
    }
}

/// Rows that keep their keys keep the map's keys.
pub proof fn lemma_same_keys<A, B>(before: Seq<(A, B)>, after: Seq<(A, B)>)
    requires
        distinct_rows(before),
        before.len() == after.len(),
        forall|i: int| 0 <= i < before.len() ==> (#[trigger] after[i]).0 == before[i].0,
    ensures
        distinct_rows(after),
        rows_map(after).dom() == rows_map(before).dom(),
        forall|k: A| #[trigger] has_row(after, k) == has_row(before, k),
        forall|k: A| has_row(before, k) ==> #[trigger] row_of(after, k) == row_of(before, k),
{
    assert forall|i: int, j: int| 0 <= i < j < after.len() implies (#[trigger] after[i]).0 != (
    #[trigger] after[j]).0 by {
        assert(before[i].0 != before[j].0);
    }
    lemma_rows_map(before);
    lemma_rows_map(after);
    assert forall|k: A| #[trigger] has_row(after, k) == has_row(before, k) by {
        if has_row(after, k) {
            let i = row_of(after, k);
            assert(after[i].0 == k && before[i].0 == k);
        }
        if has_row(before, k) {
            let i = row_of(before, k);
            assert(before[i].0 == k && after[i].0 == k);
        }
    }
    assert forall|k: A| has_row(before, k) implies #[trigger] row_of(after, k) == row_of(
        before,
        k,
    ) by {
        let i = row_of(before, k);
        assert(before[i].0 == k && after[i].0 == k);
    }
    assert(rows_map(after).dom() =~= rows_map(before).dom());
}

/// A table of values by key.
pub struct Table<K: Key, V: DeepView> {
    entries: Vec<(K, V)>,
}

impl<K: Key, V: DeepView> Table<K, V> {
    /// The rows, in the order in which their keys first came.
    pub closed spec fn rows(self) -> Seq<(K::V, V::V)> {
        self.entries.deep_view()
    }

    #[verifier::type_invariant]
    spec fn keys_once(self) -> bool {
        distinct_rows(self.rows())
    }
}

impl<K: Key, V: DeepView> DeepView for Table<K, V> {
    type V = Map<K::V, V::V>;

    open spec fn deep_view(&self) -> Map<K::V, V::V> {
        rows_map(self.rows())
    }
}

impl<K: Key, V: DeepView> View for Table<K, V> {
    type V = Map<K::V, V::V>;

    open spec fn view(&self) -> Map<K::V, V::V> {
        rows_map(self.rows())
    }
}

impl<K: Key, V: DeepView> Table<K, V> {
    /// The empty table.
    pub fn new() -> (r: Self)
        ensures
            r.rows() == Seq::<(K::V, V::V)>::empty(),
            r@ == Map::<K::V, V::V>::empty(),
    {
        let entries: Vec<(K, V)> = Vec::new();
        assert(entries.deep_view() =~= Seq::<(K::V, V::V)>::empty());
        let r = Table { entries };
        assert(r@ =~= Map::<K::V, V::V>::empty());
        r
    }

    /// How many keys the table has.
    pub fn len(&self) -> (r: usize)
        ensures
            r == self.rows().len(),
            distinct_rows(self.rows()),
    {
        proof {
            use_type_invariant(self);
        }
        self.entries.len()
    }

    /// Whether the table has no keys.
    pub fn is_empty(&self) -> (r: bool)
        ensures
            r == (self.rows().len() == 0),
            r == (self@ == Map::<K::V, V::V>::empty()),
    {
        proof {
            use_type_invariant(self);
            lemma_rows_map(self.rows());
            if self.rows().len() == 0 {
                assert(self@ =~= Map::<K::V, V::V>::empty());
            } else {
                assert(self@.dom().contains(self.rows()[0].0));
            }
        }
        self.entries.len() == 0
    }

    /// The key of the row at `i`.
    pub fn key_at(&self, i: usize) -> (r: &K)
        requires
            i < self.rows().len(),
        ensures
            r.deep_view() == self.rows()[i as int].0,
    {
        &self.entries[i].0
    }

    /// The value of the row at `i`.
    pub fn value_at(&self, i: usize) -> (r: &V)
        requires
            i < self.rows().len(),
        ensures
            r.deep_view() == self.rows()[i as int].1,
    {
        &self.entries[i].1
    }

    fn find(&self, k: &K) -> (r: Option<usize>)
        ensures
            match r {
                Some(i) => i < self.rows().len() && self.rows()[i as int].0 == k.deep_view()
                    && has_row(self.rows(), k.deep_view()) && row_of(self.rows(), k.deep_view())
                    == i,
                None => !has_row(self.rows(), k.deep_view()),
            },
    {
        proof {
            use_type_invariant(self);
            lemma_rows_map(self.rows());
        }
        let mut i: usize = 0;
        while i < self.entries.len()
            invariant
                i <= self.entries.len(),
                forall|j: int| 0 <= j < i ==> (#[trigger] self.rows()[j]).0 != k.deep_view(),
                forall|j: int|
                    0 <= j < self.rows().len() ==> row_of(
                        self.rows(),
                        (#[trigger] self.rows()[j]).0,
                    ) == j,
            decreases self.entries.len() - i,
        {
            if self.entries[i].0.same(k) {
                assert(self.rows()[i as int].0 == k.deep_view());
                return Some(i);
            }
            assert(self.rows()[i as int].0 != k.deep_view());
            i = i + 1;
        }
        None
    }

    /// The value under `k`.
    pub fn get(&self, k: &K) -> (r: Option<&V>)
        ensures
            match r {
                Some(v) => self@.dom().contains(k.deep_view()) && v.deep_view()
                    == self@[k.deep_view()],
                None => !self@.dom().contains(k.deep_view()),
            },
            r is Some == has_row(self.rows(), k.deep_view()),
            r matches Some(v) ==> v.deep_view() == self.rows()[row_of(
                self.rows(),
                k.deep_view(),
            )].1,
    {
        proof {
            use_type_invariant(self);
            lemma_rows_map(self.rows());
        }
        match self.find(k) {
            Some(i) => {
                assert(self.rows()[i as int].1 == self.entries@[i as int].1.deep_view());
                Some(&self.entries[i].1)
            },
            None => None,
        }
    }

    /// Whether there is a value under `k`.
    pub fn has(&self, k: &K) -> (r: bool)
        ensures
            r == self@.dom().contains(k.deep_view()),
            r == has_row(self.rows(), k.deep_view()),
    {
        self.find(k).is_some()
    }

    /// Write `v` under `k`.
    pub fn put(&mut self, k: K, v: V)
        ensures
            final(self).rows() == put_row(old(self).rows(), k.deep_view(), v.deep_view()),
            final(self)@ == old(self)@.insert(k.deep_view(), v.deep_view()),
    {
        proof {
            use_type_invariant(&*self);
            lemma_put_row(self.rows(), k.deep_view(), v.deep_view());
        }
        let found = self.find(&k);
        let ghost before = self.rows();
        let ghost row = (k.deep_view(), v.deep_view());
        let mut entries: Vec<(K, V)> = Vec::new();
        std::mem::swap(&mut entries, &mut self.entries);
        match found {
            Some(i) => {
                entries.set(i, (k, v));
                assert(entries.deep_view() =~= before.update(i as int, row));
            },
            None => {
                entries.push((k, v));
                assert(entries.deep_view() =~= before.push(row));
            },
        }
        self.entries = entries;
    }

    /// Write `v` into the row at `i`.
    pub fn set_at(&mut self, i: usize, v: V)
        requires
            i < old(self).rows().len(),
        ensures
            final(self).rows() == old(self).rows().update(
                i as int,
                (old(self).rows()[i as int].0, v.deep_view()),
            ),
            final(self)@ == old(self)@.insert(old(self).rows()[i as int].0, v.deep_view()),
    {
        proof {
            use_type_invariant(&*self);
            lemma_rows_map(self.rows());
            lemma_put_row(self.rows(), self.rows()[i as int].0, v.deep_view());
        }
        let ghost before = self.rows();
        let ghost row = (before[i as int].0, v.deep_view());
        let k = self.entries[i].0.dup();
        let mut entries: Vec<(K, V)> = Vec::new();
        std::mem::swap(&mut entries, &mut self.entries);
        entries.set(i, (k, v));
        assert(entries.deep_view() =~= before.update(i as int, row));
        self.entries = entries;
    }

    /// Take the value under `k` out.
    pub fn take(&mut self, k: &K) -> (r: Option<V>)
        ensures
            final(self).rows() == drop_row(old(self).rows(), k.deep_view()),
            final(self)@ == old(self)@.remove(k.deep_view()),
            match r {
                Some(v) => old(self)@.dom().contains(k.deep_view()) && v.deep_view()
                    == old(self)@[k.deep_view()],
                None => !old(self)@.dom().contains(k.deep_view()),
            },
    {
        proof {
            use_type_invariant(&*self);
            lemma_rows_map(self.rows());
            lemma_drop_row(self.rows(), k.deep_view());
        }
        let found = self.find(k);
        let ghost before = self.rows();
        match found {
            Some(i) => {
                let mut entries: Vec<(K, V)> = Vec::new();
                std::mem::swap(&mut entries, &mut self.entries);
                let (_, v) = entries.remove(i);
                assert(entries.deep_view() =~= before.remove(i as int));
                self.entries = entries;
                Some(v)
            },
            None => None,
        }
    }
}

/// A set of keys.
pub struct KeySet<K: Key> {
    items: Vec<K>,
}

/// No item occurs twice.
pub open spec fn distinct_items<A>(items: Seq<A>) -> bool {
    forall|i: int, j: int| 0 <= i < j < items.len() ==> #[trigger] items[i] != #[trigger] items[j]
}

impl<K: Key> KeySet<K> {
    /// The items, in the order in which they came.
    pub closed spec fn items(self) -> Seq<K::V> {
        self.items.deep_view()
    }

    #[verifier::type_invariant]
    spec fn items_once(self) -> bool {
        distinct_items(self.items())
    }
}

impl<K: Key> DeepView for KeySet<K> {
    type V = Set<K::V>;

    open spec fn deep_view(&self) -> Set<K::V> {
        self.items().to_set()
    }
}

impl<K: Key> View for KeySet<K> {
    type V = Set<K::V>;

    open spec fn view(&self) -> Set<K::V> {
        self.items().to_set()
    }
}

impl<K: Key> KeySet<K> {
    /// The empty set.
    pub fn new() -> (r: Self)
        ensures
            r.items() == Seq::<K::V>::empty(),
            r@ == Set::<K::V>::empty(),
    {
        let items: Vec<K> = Vec::new();
        assert(items.deep_view() =~= Seq::<K::V>::empty());
        let r = KeySet { items };
        assert(r@ =~= Set::<K::V>::empty());
        r
    }

    /// How many items the set has.
    pub fn len(&self) -> (r: usize)
        ensures
            r == self.items().len(),
            r == self@.len(),
            self@.finite(),
            distinct_items(self.items()),
    {
        proof {
            use_type_invariant(self);
            assert(self.items().no_duplicates());
            self.items().unique_seq_to_set();
        }
        self.items.len()
    }

    /// Whether the set has no items.
    pub fn is_empty(&self) -> (r: bool)
        ensures
            r == (self@ == Set::<K::V>::empty()),
            r == (self.items().len() == 0),
    {
        proof {
            if self.items().len() == 0 {
                assert(self@ =~= Set::<K::V>::empty());
            } else {
                assert(self.items().contains(self.items()[0]));
                assert(self@.contains(self.items()[0]));
            }
        }
        self.items.len() == 0
    }

    /// The item at `i`.
    pub fn item_at(&self, i: usize) -> (r: &K)
        requires
            i < self.items().len(),
        ensures
            r.deep_view() == self.items()[i as int],
            self@.contains(r.deep_view()),
    {
        assert(self.items().contains(self.items()[i as int]));
        &self.items[i]
    }

    fn find(&self, k: &K) -> (r: Option<usize>)
        ensures
            match r {
                Some(i) => i < self.items().len() && self.items()[i as int] == k.deep_view(),
                None => !self@.contains(k.deep_view()),
            },
    {
        let mut i: usize = 0;
        while i < self.items.len()
            invariant
                i <= self.items.len(),
                forall|j: int| 0 <= j < i ==> #[trigger] self.items()[j] != k.deep_view(),
            decreases self.items.len() - i,
        {
            if self.items[i].same(k) {
                return Some(i);
            }
            i = i + 1;
        }
        None
    }

    /// Whether `k` is in the set.
    pub fn has(&self, k: &K) -> (r: bool)
        ensures
            r == self@.contains(k.deep_view()),
    {
        match self.find(k) {
            Some(i) => {
                assert(self.items().contains(self.items()[i as int]));
                true
            },
            None => false,
        }
    }

    /// Add `k`.
    pub fn add(&mut self, k: K)
        ensures
            final(self)@ == old(self)@.insert(k.deep_view()),
            old(self)@.contains(k.deep_view()) ==> final(self).items() == old(self).items(),
            !old(self)@.contains(k.deep_view()) ==> final(self).items() == old(self).items().push(
                k.deep_view(),
            ),
    {
        proof {
            use_type_invariant(&*self);
        }
        let ghost before = self.items();
        let ghost v = k.deep_view();
        if self.has(&k) {
            assert(self@ =~= self@.insert(v));
        } else {
            let mut items: Vec<K> = Vec::new();
            std::mem::swap(&mut items, &mut self.items);
            items.push(k);
            proof {
                let after = items.deep_view();
                assert(after =~= before.push(v));
                assert forall|i: int, j: int| 0 <= i < j < after.len() implies #[trigger] after[i]
                    != #[trigger] after[j] by {
                    if j == before.len() {
                        assert(before.contains(before[i]));
                    }
                }
            }
            self.items = items;
            proof {
                assert(self.items()[before.len() as int] == v);
                assert forall|x: K::V| #[trigger]
                    self@.contains(x) == before.to_set().insert(v).contains(x) by {
                    if before.contains(x) {
                        let i = choose|i: int| 0 <= i < before.len() && before[i] == x;
                        assert(self.items()[i] == x);
                    }
                }
                assert(self@ =~= before.to_set().insert(v));
            }
        }
    }

    /// Remove `k`.
    pub fn remove(&mut self, k: &K)
        ensures
            final(self)@ == old(self)@.remove(k.deep_view()),
    {
        proof {
            use_type_invariant(&*self);
        }
        let ghost before = self.items();
        let ghost v = k.deep_view();
        match self.find(k) {
            Some(at) => {
                let mut items: Vec<K> = Vec::new();
                std::mem::swap(&mut items, &mut self.items);
                items.remove(at);
                proof {
                    let after = items.deep_view();
                    assert(after =~= before.remove(at as int));
                    assert forall|i: int, j: int| 0 <= i < j < after.len() implies #[trigger]
                        after[i] != #[trigger] after[j] by {
                        let i0 = if i < at { i } else { i + 1 };
                        let j0 = if j < at { j } else { j + 1 };
                        assert(before[i0] != before[j0]);
                    }
                }
                self.items = items;
                proof {
                    assert forall|x: K::V| #[trigger]
                        self@.contains(x) == before.to_set().remove(v).contains(x) by {
                        if self.items().contains(x) {
                            let i = choose|i: int| 0 <= i < self.items().len() && self.items()[i] == x;
                            let i0 = if i < at { i } else { i + 1 };
                            assert(before[i0] == x);
                            if i0 < at {
                                assert(before[i0] != before[at as int]);
                            } else {
                                assert(before[at as int] != before[i0]);
                            }
                        }
                        if before.contains(x) && x != v {
                            let i0 = choose|i: int| 0 <= i < before.len() && before[i] == x;
                            let i = if i0 < at { i0 } else { i0 - 1 };
                            assert(self.items()[i] == x);
                        }
                    }
                    assert(self@ =~= before.to_set().remove(v));
                }
            },
            None => {
                assert(self@ =~= self@.remove(v));
            },
        }
    }

    /// A second set with the same items.
    pub fn dup(&self) -> (r: Self)
        ensures
            r@ == self@,
            r.items() == self.items(),
    {
        proof {
            use_type_invariant(self);
        }
        let mut items: Vec<K> = Vec::new();
        let mut i: usize = 0;
        while i < self.items.len()
            invariant
                i <= self.items.len(),
                items.deep_view() == self.items().take(i as int),
            decreases self.items.len() - i,
        {
            let ghost taken = items.deep_view();
            let item = self.items[i].dup();
            let ghost v = item.deep_view();
            assert(v == self.items()[i as int]);
            items.push(item);
            assert(items.deep_view() =~= taken.push(v));
            assert(self.items().take(i + 1) =~= self.items().take(i as int).push(v));
            i = i + 1;
        }
        assert(self.items().take(i as int) =~= self.items());
        KeySet { items }
    }
}

/// A sequence with an item more holds that item and what it held before.
pub proof fn lemma_push_contains<A>(s: Seq<A>, x: A, y: A)
    ensures
        s.push(x).contains(y) <==> s.contains(y) || x == y,
{
    let t = s.push(x);
    assert(t[t.len() - 1] == x);
    if s.contains(y) {
        let j = choose|j: int| 0 <= j < s.len() && s[j] == y;
        assert(t[j] == y);
    }
    if t.contains(y) {
        let j = choose|j: int| 0 <= j < t.len() && t[j] == y;
        if j < s.len() {
            assert(s[j] == y);
        }
    }
}

} // verus!
