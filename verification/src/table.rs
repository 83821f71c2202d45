//! A small keyed table.
use vstd::prelude::*;

verus! {

/// Keys of a [`Table`]: two keys stand for the same entry when their `id`s are
/// equal.
pub trait TableKey: Sized {
    type Id;

    spec fn id(&self) -> Self::Id;

    fn same(&self, other: &Self) -> (r: bool)
        ensures
            r == (self.id() == other.id()),
    ;
}

/// A table with at most one entry per key.
pub struct Table<K: TableKey, V> {
    entries: Vec<(K, V)>,
}

/// No two entries of `s` have the same key.
pub open spec fn distinct_keys<K: TableKey, V>(s: Seq<(K, V)>) -> bool {
    forall|i: int, j: int|
        0 <= i < j < s.len() ==> (#[trigger] s[i]).0.id() != (#[trigger] s[j]).0.id()
}

/// The mapping that the entries of `s` make up.
pub open spec fn entry_map<K: TableKey, V>(s: Seq<(K, V)>) -> Map<K::Id, V>
    decreases s.len(),
{
    if s.len() == 0 {
        Map::empty()
    } else {
        entry_map(s.drop_last()).insert(s.last().0.id(), s.last().1)
    }
}

pub(crate) proof fn lemma_entry_map<K: TableKey, V>(s: Seq<(K, V)>)
    requires
        distinct_keys(s),
    ensures
        forall|id: K::Id| #[trigger] entry_map(s).dom().contains(id) <==> exists|i: int|
            0 <= i < s.len() && (#[trigger] s[i]).0.id() == id,
        forall|i: int|
            0 <= i < s.len() ==> entry_map(s).dom().contains((#[trigger] s[i]).0.id()) && entry_map(
                s,
            )[s[i].0.id()] == s[i].1,
    decreases s.len(),
{
    if s.len() > 0 {
        let front = s.drop_last();
        assert(forall|i: int| 0 <= i < front.len() ==> #[trigger] front[i] == s[i]);
        lemma_entry_map(front);
        assert forall|id: K::Id| #[trigger] entry_map(s).dom().contains(id) <==> exists|i: int|
            0 <= i < s.len() && (#[trigger] s[i]).0.id() == id by {
            if entry_map(s).dom().contains(id) {
                if id == s.last().0.id() {
                    assert(s[s.len() - 1].0.id() == id);
                } else {
                    assert(entry_map(front).dom().contains(id));
                    let i = choose|i: int| 0 <= i < front.len() && (#[trigger] front[i]).0.id() == id;
                    assert(s[i].0.id() == id);
                }
            }
            if exists|i: int| 0 <= i < s.len() && (#[trigger] s[i]).0.id() == id {
                let i = choose|i: int| 0 <= i < s.len() && (#[trigger] s[i]).0.id() == id;
                if i < front.len() {
                    assert(front[i].0.id() == id);
                }
            }
        }
        assert forall|i: int| 0 <= i < s.len() implies entry_map(s).dom().contains(
            (#[trigger] s[i]).0.id(),
        ) && entry_map(s)[s[i].0.id()] == s[i].1 by {
            if i < front.len() {
                assert(front[i] == s[i]);
                assert(entry_map(front).dom().contains(front[i].0.id()));
                assert(s[i].0.id() != s[s.len() - 1].0.id());
            }
        }
    }
}

impl<K: TableKey, V> View for Table<K, V> {
    type V = Map<K::Id, V>;

    closed spec fn view(&self) -> Map<K::Id, V> {
        entry_map(self.entries@)
    }
}

impl<K: TableKey, V> Table<K, V> {
    /// At most one entry per key.
    pub closed spec fn wf(&self) -> bool {
        distinct_keys(self.entries@)
    }

    pub fn new() -> (r: Self)
        ensures
            r.wf(),
            r@ == Map::<K::Id, V>::empty(),
    {
        Table { entries: Vec::new() }
    }

    fn find(&self, key: &K) -> (r: Option<usize>)
        ensures
            match r {
                Some(i) => i < self.entries@.len() && self.entries@[i as int].0.id() == key.id(),
                None => forall|i: int|
                    0 <= i < self.entries@.len() ==> (#[trigger] self.entries@[i]).0.id()
                        != key.id(),
            },
    {
        let mut i: usize = 0;
        while i < self.entries.len()
            invariant
                i <= self.entries@.len(),
                forall|j: int|
                    0 <= j < i ==> (#[trigger] self.entries@[j]).0.id() != key.id(),
            decreases self.entries@.len() - i,
        {
            if self.entries[i].0.same(key) {
                return Some(i);
            }
            i += 1;
        }
        None
    }

    pub fn contains(&self, key: &K) -> (r: bool)
        requires
            self.wf(),
        ensures
            r == self@.dom().contains(key.id()),
    {
        proof {
            lemma_entry_map(self.entries@);
        }
        self.find(key).is_some()
    }

    pub fn get(&self, key: &K) -> (r: Option<&V>)
        requires
            self.wf(),
        ensures
            match r {
                Some(v) => self@.dom().contains(key.id()) && self@[key.id()] == *v,
                None => !self@.dom().contains(key.id()),
            },
    {
        proof {
            lemma_entry_map(self.entries@);
        }
        match self.find(key) {
            Some(i) => Some(&self.entries[i].1),
            None => None,
        }
    }

    /// Remove the entry of `key` and hand out its value.
    pub fn remove(&mut self, key: &K) -> (r: Option<V>)
        requires
            old(self).wf(),
        ensures
            final(self).wf(),
            final(self)@ == old(self)@.remove(key.id()),
            match r {
                Some(v) => old(self)@.dom().contains(key.id()) && old(self)@[key.id()] == v,
                None => !old(self)@.dom().contains(key.id()),
            },
    {
        proof {
            lemma_entry_map(self.entries@);
        }
        let ghost before = self.entries@;
        match self.find(key) {
            Some(i) => {
                let entry: (K, V) = self.entries.remove(i);
                proof {
                    let after = self.entries@;
                    assert(after == before.remove(i as int));
                    assert forall|a: int| 0 <= a < after.len() implies #[trigger] after[a]
                        == before[if a < i { a } else { a + 1 }] by {}
                    assert(distinct_keys(after));
                    lemma_entry_map(after);
                    lemma_entries_removed(before, after, i as int);
                }
                Some(entry.1)
            },
            None => {
                assert(self@ =~= old(self)@.remove(key.id()));
                None
            },
        }
    }

    /// Set the value of `key`, whether or not it had one.
    pub fn insert(&mut self, key: K, value: V)
        requires
            old(self).wf(),
        ensures
            final(self).wf(),
            final(self)@ == old(self)@.insert(key.id(), value),
    {
        let ghost id = key.id();
        self.remove(&key);
        proof {
            lemma_entry_map(self.entries@);
        }
        let ghost before = self.entries@;
        proof {
            assert(!entry_map(before).dom().contains(id));
            let after = before.push((key, value));
            assert(after.drop_last() =~= before);
            assert forall|i: int, j: int| 0 <= i < j < after.len() implies (
            #[trigger] after[i]).0.id() != (#[trigger] after[j]).0.id() by {
                if j == before.len() {
                    assert(before[i].0.id() != id);
                }
            }
        }
        self.entries.push((key, value));
        assert(self@ =~= old(self)@.insert(id, value));
    }

    pub fn clear(&mut self)
        ensures
            final(self).wf(),
            final(self)@ == Map::<K::Id, V>::empty(),
    {
        self.entries = Vec::new();
    }

    /// Remove all entries and hand out them all, in no particular order.
    pub fn drain(&mut self) -> (r: Vec<(K, V)>)
        requires
            old(self).wf(),
        ensures
            final(self).wf(),
            final(self)@ == Map::<K::Id, V>::empty(),
            distinct_keys(r@),
            entry_map(r@) == old(self)@,
    {
        let mut r: Vec<(K, V)> = Vec::new();
        std::mem::swap(&mut self.entries, &mut r);
        r
    }
}

proof fn lemma_entries_removed<K: TableKey, V>(before: Seq<(K, V)>, after: Seq<(K, V)>, i: int)
    requires
        distinct_keys(before),
        0 <= i < before.len(),
        after == before.remove(i),
    ensures
        distinct_keys(after),
        entry_map(after) == entry_map(before).remove(before[i].0.id()),
{
    assert forall|a: int| 0 <= a < after.len() implies #[trigger] after[a] == before[if a < i {
        a
    } else {
        a + 1
    }] by {}
    assert(distinct_keys(after));
    lemma_entry_map(before);
    lemma_entry_map(after);
    let id = before[i].0.id();
    let x = entry_map(after);
    let y = entry_map(before).remove(id);
    assert forall|k: K::Id| #[trigger] x.dom().contains(k) <==> y.dom().contains(k) by {
        if x.dom().contains(k) {
            let a = choose|a: int| 0 <= a < after.len() && (#[trigger] after[a]).0.id() == k;
            let b = if a < i { a } else { a + 1 };
            assert(before[b].0.id() == k);
            assert(entry_map(before).dom().contains(k));
        }
        if y.dom().contains(k) {
            let b = choose|b: int| 0 <= b < before.len() && (#[trigger] before[b]).0.id() == k;
            let a = if b < i { b } else { b - 1 };
            assert(after[a].0.id() == k);
        }
    }
    assert forall|k: K::Id| #[trigger] x.dom().contains(k) implies x[k] == y[k] by {
        let a = choose|a: int| 0 <= a < after.len() && (#[trigger] after[a]).0.id() == k;
        let b = if a < i { a } else { a + 1 };
        assert(before[b] == after[a]);
        assert(x[after[a].0.id()] == after[a].1);
        assert(entry_map(before)[before[b].0.id()] == before[b].1);
    }
    assert(x =~= y);
}

} // verus!
