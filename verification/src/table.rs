//! A small table from pairs of numbers to values, kept as a list of rows.
use vstd::prelude::*;

verus! {

pub type Key = (u64, u64);

/// Rows in the order in which their keys first came; no key occurs twice.
pub struct Table<V> {
    rows: Vec<(Key, V)>,
}

pub closed spec fn row_at<V>(rows: Seq<(Key, V)>, k: Key) -> int {
    choose|i: int| 0 <= i < rows.len() && (#[trigger] rows[i]).0 == k
}

pub open spec fn has_key<V>(rows: Seq<(Key, V)>, k: Key) -> bool {
    exists|i: int| 0 <= i < rows.len() && (#[trigger] rows[i]).0 == k
}

pub open spec fn keys_distinct<V>(rows: Seq<(Key, V)>) -> bool {
    forall|i: int, j: int|
        0 <= i < j < rows.len() ==> (#[trigger] rows[i]).0 != (#[trigger] rows[j]).0
}

impl<V> View for Table<V> {
    type V = Map<Key, V>;

    closed spec fn view(&self) -> Map<Key, V> {
        Map::new(
            |k: Key| has_key(self.rows@, k),
            |k: Key| self.rows@[row_at(self.rows@, k)].1,
        )
    }
}

impl<V> Table<V> {
    pub closed spec fn wf(&self) -> bool {
        keys_distinct(self.rows@)
    }

    proof fn row_is_entry(&self, i: int)
        requires
            self.wf(),
            0 <= i < self.rows@.len(),
        ensures
            self@.dom().contains(self.rows@[i].0),
            self@[self.rows@[i].0] == self.rows@[i].1,
    {
        let k = self.rows@[i].0;
        assert(has_key(self.rows@, k));
        let j = row_at(self.rows@, k);
        assert(0 <= j < self.rows@.len() && self.rows@[j].0 == k);
        assert(i == j);
    }

    pub fn new() -> (r: Self)
        ensures
            r.wf(),
            r@ == Map::<Key, V>::empty(),
    {
        let r = Table { rows: Vec::new() };
        assert(r@ =~= Map::<Key, V>::empty());
        r
    }

    fn find(&self, k: Key) -> (r: Option<usize>)
        requires
            self.wf(),
        ensures
            r is None <==> !self@.dom().contains(k),
            r matches Some(i) ==> i < self.rows@.len() && self.rows@[i as int].0 == k
                && self@[k] == self.rows@[i as int].1,
    {
        let mut i: usize = 0;
        while i < self.rows.len()
            invariant
                self.wf(),
                i <= self.rows@.len(),
                forall|j: int| 0 <= j < i ==> (#[trigger] self.rows@[j]).0 != k,
            decreases self.rows@.len() - i,
        {
            let key: Key = self.rows[i].0;
            if key.0 == k.0 && key.1 == k.1 {
                proof {
                    self.row_is_entry(i as int);
                }
                return Some(i);
            }
            i += 1;
        }
        None
    }

    pub fn get(&self, k: Key) -> (r: Option<&V>)
        requires
            self.wf(),
        ensures
            r is None <==> !self@.dom().contains(k),
            r matches Some(v) ==> *v == self@[k],
    {
        match self.find(k) {
            Some(i) => Some(&self.rows[i].1),
            None => None,
        }
    }

    /// Take what stands under `k` out of the table.
    pub fn take(&mut self, k: Key) -> (r: Option<V>)
        requires
            old(self).wf(),
        ensures
            final(self).wf(),
            final(self)@ == old(self)@.remove(k),
            r is None <==> !old(self)@.dom().contains(k),
            r matches Some(v) ==> v == old(self)@[k],
    {
        let ghost before = *self;
        match self.find(k) {
            Some(i) => {
                let row = self.rows.remove(i);
                proof {
                    let skip = |a: int| if a < i { a } else { a + 1 };
                    assert forall|a: int| 0 <= a < self.rows@.len() implies #[trigger] self.rows@[a]
                        == before.rows@[skip(a)] by {}
                    assert forall|a: int, b: int| 0 <= a < b < self.rows@.len() implies (
                    #[trigger] self.rows@[a]).0 != (#[trigger] self.rows@[b]).0 by {
                        assert(before.rows@[skip(a)].0 != before.rows@[skip(b)].0);
                    }
                    let want = before@.remove(k);
                    assert forall|x: Key| self@.dom().contains(x) <==> want.dom().contains(x) by {
                        if self@.dom().contains(x) {
                            let a = row_at(self.rows@, x);
                            assert(0 <= a < self.rows@.len() && self.rows@[a].0 == x);
                            before.row_is_entry(skip(a));
                            assert(before.rows@[skip(a)].0 != before.rows@[i as int].0);
                        }
                        if want.dom().contains(x) {
                            let j = row_at(before.rows@, x);
                            assert(0 <= j < before.rows@.len() && before.rows@[j].0 == x);
                            assert(j != i);
                            let a = if j < i { j } else { j - 1 };
                            assert(self.rows@[a].0 == x);
                        }
                    }
                    assert forall|x: Key| self@.dom().contains(x) implies self@[x] == want[x] by {
                        let a = row_at(self.rows@, x);
                        assert(0 <= a < self.rows@.len() && self.rows@[a].0 == x);
                        self.row_is_entry(a);
                        before.row_is_entry(skip(a));
                    }
                    assert(self@ =~= want);
                }
                Some(row.1)
            },
            None => {
                proof {
                    assert(self@ =~= before@.remove(k));
                }
                None
            },
        }
    }

    /// Put `v` under `k`, in place of what stood there.
    pub fn insert(&mut self, k: Key, v: V)
        requires
            old(self).wf(),
        ensures
            final(self).wf(),
            final(self)@ == old(self)@.insert(k, v),
    {
        let ghost before = *self;
        let ghost mut at: int = 0;
        match self.find(k) {
            Some(i) => {
                self.rows.set(i, (k, v));
                proof {
                    at = i as int;
                    assert(self.rows@ == before.rows@.update(i as int, (k, v)));
                    assert forall|a: int, b: int| 0 <= a < b < self.rows@.len() implies (
                    #[trigger] self.rows@[a]).0 != (#[trigger] self.rows@[b]).0 by {
                        assert(before.rows@[a].0 != before.rows@[b].0);
                    }
                }
            },
            None => {
                self.rows.push((k, v));
                proof {
                    at = before.rows@.len() as int;
                    assert forall|a: int, b: int| 0 <= a < b < self.rows@.len() implies (
                    #[trigger] self.rows@[a]).0 != (#[trigger] self.rows@[b]).0 by {
                        assert(before.rows@[a] == self.rows@[a]);
                        if b == before.rows@.len() {
                            before.row_is_entry(a);
                        } else {
                            assert(before.rows@[b] == self.rows@[b]);
                        }
                    }
                }
            },
        }
        proof {
            let want = before@.insert(k, v);
            assert forall|x: Key| self@.dom().contains(x) <==> want.dom().contains(x) by {
                if self@.dom().contains(x) {
                    let i = row_at(self.rows@, x);
                    assert(0 <= i < self.rows@.len() && self.rows@[i].0 == x);
                    if x != k {
                        assert(before.rows@[i] == self.rows@[i]);
                        before.row_is_entry(i);
                    }
                }
                if want.dom().contains(x) {
                    if x == k {
                        assert(self.rows@[at].0 == x);
                    } else {
                        let i = row_at(before.rows@, x);
                        assert(before.rows@[i].0 == x);
                        assert(self.rows@[i] == before.rows@[i]);
                    }
                }
            }
            assert forall|x: Key| self@.dom().contains(x) implies self@[x] == want[x] by {
                let i = row_at(self.rows@, x);
                assert(0 <= i < self.rows@.len() && self.rows@[i].0 == x);
                self.row_is_entry(i);
                if x == k {
                    self.row_is_entry(at);
                } else {
                    assert(before.rows@[i] == self.rows@[i]);
                    before.row_is_entry(i);
                }
            }
            assert(self@ =~= want);
        }
    }
}

impl Table<u32> {
    /// Drop the entries whose tick is older than `MAX_CHANGE_AGE`.
    pub fn drop_expired(&mut self, this_run: u32)
        requires
            old(self).wf(),
        ensures
            final(self).wf(),
            final(self)@ == old(self)@.restrict(
                Set::new(|k: Key| crate::tick::age(old(self)@[k], this_run)
                    <= crate::tick::MAX_CHANGE_AGE),
            ),
    {
        let ghost before = *self;
        let mut kept: Vec<(Key, u32)> = Vec::new();
        let ghost mut from: Seq<int> = Seq::empty();
        let mut i: usize = 0;
        while i < self.rows.len()
            invariant
                *self == before,
                before.wf(),
                i <= before.rows@.len(),
                from.len() == kept@.len(),
                forall|a: int| 0 <= a < from.len() ==> 0 <= #[trigger] from[a] < i,
                forall|a: int| 0 <= a < from.len() ==> before.rows@[#[trigger] from[a]] == kept@[a],
                forall|a: int, b: int| 0 <= a < b < from.len() ==> #[trigger] from[a] < #[trigger] from[b],
                forall|a: int| 0 <= a < kept@.len() ==> crate::tick::age((#[trigger] kept@[a]).1, this_run)
                    <= crate::tick::MAX_CHANGE_AGE,
                forall|j: int| #![trigger before.rows@[j]] 0 <= j < i && crate::tick::age(before.rows@[j].1, this_run)
                    <= crate::tick::MAX_CHANGE_AGE ==> from.contains(j),
            decreases before.rows@.len() - i,
        {
            let row: (Key, u32) = self.rows[i];
            let ghost prior = from;
            if this_run.wrapping_sub(row.1) <= crate::tick::MAX_CHANGE_AGE {
                kept.push(row);
                proof {
                    from = from.push(i as int);
                    assert(from[from.len() - 1] == i);
                }
            }
            proof {
                assert forall|j: int| #![trigger before.rows@[j]]
                    0 <= j < i + 1 && crate::tick::age(before.rows@[j].1, this_run)
                        <= crate::tick::MAX_CHANGE_AGE implies from.contains(j) by {
                    if j < i {
                        let a = choose|a: int| 0 <= a < prior.len() && prior[a] == j;
                        assert(from[a] == j);
                    }
                }
            }
            i += 1;
        }
        self.rows = kept;
        proof {
            assert forall|a: int, b: int| 0 <= a < b < self.rows@.len() implies (
            #[trigger] self.rows@[a]).0 != (#[trigger] self.rows@[b]).0 by {
                assert(from[a] < from[b]);
                assert(before.rows@[from[a]].0 != before.rows@[from[b]].0);
            }
            let young = Set::new(|k: Key| crate::tick::age(before@[k], this_run)
                <= crate::tick::MAX_CHANGE_AGE);
            let want = before@.restrict(young);
            assert forall|k: Key| self@.dom().contains(k) <==> want.dom().contains(k) by {
                if self@.dom().contains(k) {
                    let a = row_at(self.rows@, k);
                    assert(0 <= a < self.rows@.len() && self.rows@[a].0 == k);
                    before.row_is_entry(from[a]);
                }
                if want.dom().contains(k) {
                    let j = row_at(before.rows@, k);
                    assert(0 <= j < before.rows@.len() && before.rows@[j].0 == k);
                    before.row_is_entry(j);
                    assert(from.contains(j));
                    let a = choose|a: int| 0 <= a < from.len() && from[a] == j;
                    assert(self.rows@[a].0 == k);
                }
            }
            assert forall|k: Key| self@.dom().contains(k) implies self@[k] == want[k] by {
                let a = row_at(self.rows@, k);
                assert(0 <= a < self.rows@.len() && self.rows@[a].0 == k);
                self.row_is_entry(a);
                before.row_is_entry(from[a]);
            }
            assert(self@ =~= want);
        }
    }
}

} // verus!
