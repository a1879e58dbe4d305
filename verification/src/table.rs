//! A table from byte-string keys to values, each key stored once.

use vstd::prelude::*;
use crate::bytes::bytes_equal;

verus! {

/// Rows of `(key, value)`, with no key appearing in two rows.
pub struct KeyedTable<V> {
    rows: Vec<(Vec<u8>, V)>,
}

/// Some row of `rows` has key `k`.
pub open spec fn has_key<V>(rows: Seq<(Vec<u8>, V)>, k: Seq<u8>) -> bool {
    exists|i: int| 0 <= i < rows.len() && #[trigger] rows[i].0@ == k
}

/// The map that a sequence of rows stands for.
pub open spec fn rows_map<V: View>(rows: Seq<(Vec<u8>, V)>) -> Map<Seq<u8>, V::V> {
    Map::new(
        |k: Seq<u8>| has_key(rows, k),
        |k: Seq<u8>| rows[choose|i: int| 0 <= i < rows.len() && #[trigger] rows[i].0@ == k].1@,
    )
}

/// No two rows share a key.
pub open spec fn keys_distinct<V>(rows: Seq<(Vec<u8>, V)>) -> bool {
    forall|i: int, j: int|
        0 <= i < rows.len() && 0 <= j < rows.len() && i != j ==> #[trigger] rows[i].0@
            != #[trigger] rows[j].0@
}

/// In rows with distinct keys, the map gives the value of the row that holds the key.
pub proof fn lemma_rows_map_at<V: View>(rows: Seq<(Vec<u8>, V)>, i: int)
    requires
        keys_distinct(rows),
        0 <= i < rows.len(),
    ensures
        rows_map(rows).contains_key(rows[i].0@),
        rows_map(rows)[rows[i].0@] == rows[i].1@,
{
    let k = rows[i].0@;
    assert(has_key(rows, k));
    let j = choose|j: int| 0 <= j < rows.len() && #[trigger] rows[j].0@ == k;
    assert(j == i);
}

impl<V: View> View for KeyedTable<V> {
    type V = Map<Seq<u8>, V::V>;

    closed spec fn view(&self) -> Map<Seq<u8>, V::V> {
        rows_map(self.rows@)
    }
}

impl<V: View> KeyedTable<V> {
    /// The table keeps each key in one row only.
    pub closed spec fn wf(&self) -> bool {
        keys_distinct(self.rows@)
    }

    /// An empty table.
    pub fn new() -> (t: Self)
        ensures
            t.wf(),
            t@ == Map::<Seq<u8>, V::V>::empty(),
    {
        let t = KeyedTable { rows: Vec::new() };
        assert(t@ =~= Map::<Seq<u8>, V::V>::empty());
        t
    }

    /// The row holding `k`, if any.
    fn find(&self, k: &[u8]) -> (r: Option<usize>)
        requires
            self.wf(),
        ensures
            r is Some <==> self@.contains_key(k@),
            r matches Some(i) ==> i < self.rows@.len() && self.rows@[i as int].0@ == k@
                && self@[k@] == self.rows@[i as int].1@,
    {
        let mut i: usize = 0;
        while i < self.rows.len()
            invariant
                keys_distinct(self.rows@),
                i <= self.rows@.len(),
                forall|j: int| 0 <= j < i ==> self.rows@[j].0@ != k@,
            decreases self.rows@.len() - i,
        {
            if bytes_equal(self.rows[i].0.as_slice(), k) {
                proof {
                    lemma_rows_map_at(self.rows@, i as int);
                }
                return Some(i);
            }
            i = i + 1;
        }
        assert(!has_key(self.rows@, k@));
        None
    }

    /// The number of rows.
    pub closed spec fn row_count(&self) -> nat {
        self.rows@.len()
    }

    /// The key of row `i`.
    pub closed spec fn key_at(&self, i: int) -> Seq<u8> {
        self.rows@[i].0@
    }

    /// Every key of the table is the key of exactly one row.
    pub proof fn lemma_rows_cover(&self, k: Seq<u8>)
        requires
            self.wf(),
            self@.contains_key(k),
        ensures
            exists|i: int| 0 <= i < self.row_count() && #[trigger] self.key_at(i) == k,
            forall|i: int, j: int|
                0 <= i < self.row_count() && 0 <= j < self.row_count() && self.key_at(i) == k
                    && self.key_at(j) == k ==> i == j,
    {
        let i = choose|i: int| 0 <= i < self.rows@.len() && #[trigger] self.rows@[i].0@ == k;
        assert(self.key_at(i) == k);
    }

    /// The number of rows.
    pub fn len(&self) -> (n: usize)
        ensures
            n == self.row_count(),
    {
        self.rows.len()
    }

    /// The key and value of row `i`.
    pub fn row(&self, i: usize) -> (r: (&Vec<u8>, &V))
        requires
            self.wf(),
            i < self.row_count(),
        ensures
            r.0@ == self.key_at(i as int),
            self@.contains_key(r.0@),
            self@[r.0@] == r.1@,
    {
        proof {
            lemma_rows_map_at(self.rows@, i as int);
        }
        (&self.rows[i].0, &self.rows[i].1)
    }

    /// Whether the table has a row for `k`.
    pub fn contains(&self, k: &[u8]) -> (r: bool)
        requires
            self.wf(),
        ensures
            r == self@.contains_key(k@),
    {
        self.find(k).is_some()
    }

    /// The value kept under `k`, if any.
    pub fn get(&self, k: &[u8]) -> (r: Option<&V>)
        requires
            self.wf(),
        ensures
            r is Some <==> self@.contains_key(k@),
            r matches Some(v) ==> v@ == self@[k@],
    {
        match self.find(k) {
            Some(i) => Some(&self.rows[i].1),
            None => None,
        }
    }

    /// Keeps `v` under `k`, replacing what was kept there.
    pub fn insert(&mut self, k: Vec<u8>, v: V)
        requires
            old(self).wf(),
        ensures
            final(self).wf(),
            final(self)@ == old(self)@.insert(k@, v@),
    {
        let ghost kv = k@;
        let ghost vv = v@;
        match self.find(k.as_slice()) {
            Some(i) => {
                let ghost old_rows = self.rows@;
                self.rows.set(i, (k, v));
                proof {
                    let rows = self.rows@;
                    assert(rows =~= old_rows.update(i as int, rows[i as int]));
                    assert forall|a: int, b: int|
                        0 <= a < rows.len() && 0 <= b < rows.len() && a != b implies #[trigger] rows[a].0@
                        != #[trigger] rows[b].0@ by {
                        if a != i && b != i {
                            assert(old_rows[a] == rows[a]);
                            assert(old_rows[b] == rows[b]);
                        } else if a == i {
                            assert(old_rows[b] == rows[b]);
                            assert(old_rows[a].0@ == kv);
                        } else {
                            assert(old_rows[a] == rows[a]);
                            assert(old_rows[b].0@ == kv);
                        }
                    }
                    self.lemma_view_after_set(old_rows, i as int, kv, vv);
                }
            },
            None => {
                let ghost old_rows = self.rows@;
                self.rows.push((k, v));
                proof {
                    let rows = self.rows@;
                    assert(rows =~= old_rows.push(rows[old_rows.len() as int]));
                    assert forall|a: int, b: int|
                        0 <= a < rows.len() && 0 <= b < rows.len() && a != b implies #[trigger] rows[a].0@
                        != #[trigger] rows[b].0@ by {
                        if a < old_rows.len() && b < old_rows.len() {
                            assert(old_rows[a] == rows[a]);
                            assert(old_rows[b] == rows[b]);
                        } else if a < old_rows.len() {
                            assert(old_rows[a] == rows[a]);
                            assert(!has_key(old_rows, kv));
                        } else {
                            assert(old_rows[b] == rows[b]);
                            assert(!has_key(old_rows, kv));
                        }
                    }
                    self.lemma_view_after_push(old_rows, kv, vv);
                }
            },
        }
    }

    proof fn lemma_view_after_set(&self, old_rows: Seq<(Vec<u8>, V)>, i: int, kv: Seq<u8>, vv: V::V)
        requires
            keys_distinct(old_rows),
            keys_distinct(self.rows@),
            0 <= i < old_rows.len(),
            old_rows.len() == self.rows@.len(),
            old_rows[i].0@ == kv,
            self.rows@[i].0@ == kv,
            self.rows@[i].1@ == vv,
            forall|j: int| 0 <= j < old_rows.len() && j != i ==> self.rows@[j] == old_rows[j],
        ensures
            self@ == rows_map(old_rows).insert(kv, vv),
    {
        let rows = self.rows@;
        let m = rows_map(old_rows).insert(kv, vv);
        assert forall|k: Seq<u8>| #[trigger] self@.contains_key(k) <==> m.contains_key(k) by {
            if has_key(rows, k) {
                let j = choose|j: int| 0 <= j < rows.len() && #[trigger] rows[j].0@ == k;
                if j != i {
                    assert(old_rows[j].0@ == k);
                }
            }
            if has_key(old_rows, k) {
                let j = choose|j: int| 0 <= j < old_rows.len() && #[trigger] old_rows[j].0@ == k;
                if j != i {
                    assert(rows[j].0@ == k);
                }
            }
            if k == kv {
                assert(rows[i].0@ == k);
            }
        }
        assert forall|k: Seq<u8>| #[trigger] self@.contains_key(k) implies self@[k] == m[k] by {
            let j = choose|j: int| 0 <= j < rows.len() && #[trigger] rows[j].0@ == k;
            lemma_rows_map_at(rows, j);
            if j != i {
                lemma_rows_map_at(old_rows, j);
            }
        }
        assert(self@ =~= m);
    }

    proof fn lemma_view_after_push(&self, old_rows: Seq<(Vec<u8>, V)>, kv: Seq<u8>, vv: V::V)
        requires
            keys_distinct(old_rows),
            keys_distinct(self.rows@),
            self.rows@.len() == old_rows.len() + 1,
            self.rows@.last().0@ == kv,
            self.rows@.last().1@ == vv,
            forall|j: int| 0 <= j < old_rows.len() ==> self.rows@[j] == old_rows[j],
        ensures
            self@ == rows_map(old_rows).insert(kv, vv),
    {
        let rows = self.rows@;
        let n = old_rows.len() as int;
        let m = rows_map(old_rows).insert(kv, vv);
        assert forall|k: Seq<u8>| #[trigger] self@.contains_key(k) <==> m.contains_key(k) by {
            if has_key(rows, k) {
                let j = choose|j: int| 0 <= j < rows.len() && #[trigger] rows[j].0@ == k;
                if j != n {
                    assert(old_rows[j].0@ == k);
                }
            }
            if has_key(old_rows, k) {
                let j = choose|j: int| 0 <= j < old_rows.len() && #[trigger] old_rows[j].0@ == k;
                assert(rows[j].0@ == k);
            }
            if k == kv {
                assert(rows[n].0@ == k);
            }
        }
        assert forall|k: Seq<u8>| #[trigger] self@.contains_key(k) implies self@[k] == m[k] by {
            let j = choose|j: int| 0 <= j < rows.len() && #[trigger] rows[j].0@ == k;
            lemma_rows_map_at(rows, j);
            if j != n {
                lemma_rows_map_at(old_rows, j);
            }
        }
        assert(self@ =~= m);
    }

    /// Drops the row of `k`, if there is one.
    pub fn remove(&mut self, k: &[u8])
        requires
            old(self).wf(),
        ensures
            final(self).wf(),
            final(self)@ == old(self)@.remove(k@),
    {
        let ghost kv = k@;
        match self.find(k) {
            Some(i) => {
                let ghost old_rows = self.rows@;
                let _ = self.rows.remove(i);
                proof {
                    let rows = self.rows@;
                    assert(rows =~= old_rows.remove(i as int));
                    assert forall|a: int, b: int|
                        0 <= a < rows.len() && 0 <= b < rows.len() && a != b implies #[trigger] rows[a].0@
                        != #[trigger] rows[b].0@ by {
                        let a2 = if a < i { a } else { a + 1 };
                        let b2 = if b < i { b } else { b + 1 };
                        assert(rows[a] == old_rows[a2]);
                        assert(rows[b] == old_rows[b2]);
                    }
                    let m = rows_map(old_rows).remove(kv);
                    assert forall|key: Seq<u8>| #[trigger] self@.contains_key(key) <==> m.contains_key(key) by {
                        if has_key(rows, key) {
                            let j = choose|j: int| 0 <= j < rows.len() && #[trigger] rows[j].0@ == key;
                            let j2 = if j < i { j } else { j + 1 };
                            assert(old_rows[j2].0@ == key);
                        }
                        if has_key(old_rows, key) && key != kv {
                            let j = choose|j: int| 0 <= j < old_rows.len() && #[trigger] old_rows[j].0@ == key;
                            assert(j != i);
                            let j1 = if j < i { j } else { j - 1 };
                            assert(rows[j1].0@ == key);
                        }
                    }
                    assert forall|key: Seq<u8>| #[trigger] self@.contains_key(key) implies self@[key] == m[key] by {
                        let j = choose|j: int| 0 <= j < rows.len() && #[trigger] rows[j].0@ == key;
                        let j2 = if j < i { j } else { j + 1 };
                        lemma_rows_map_at(rows, j);
                        lemma_rows_map_at(old_rows, j2);
                    }
                    assert(self@ =~= m);
                }
            },
            None => {
                assert(self@ =~= old(self)@.remove(kv));
            },
        }
    }
}

} // verus!
