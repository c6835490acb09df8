//! A bounded least-recently-used cache keyed by model identity.

use vstd::prelude::*;
use vstd::string::StringExecFns;

verus! {

/// The abstract content of a cache: its entries from least to most recently
/// touched, each a key and its value.
pub type Entries<V> = Seq<(Seq<char>, V)>;

/// Whether `k` is the key of some entry.
pub open spec fn has_key<V>(es: Entries<V>, k: Seq<char>) -> bool {
    exists|i: int| 0 <= i < es.len() && (#[trigger] es[i]).0 == k
}

/// No key occurs twice.
pub open spec fn keys_distinct<V>(es: Entries<V>) -> bool {
    forall|i: int, j: int|
        0 <= i < es.len() && 0 <= j < es.len() && i != j ==> (#[trigger] es[i]).0 != (#[trigger] es[j]).0
}

/// The position of the entry with key `k` (meaningful when there is one).
pub open spec fn key_index<V>(es: Entries<V>, k: Seq<char>) -> int {
    choose|i: int| 0 <= i < es.len() && (#[trigger] es[i]).0 == k
}

/// The entries after the one at `i` has been touched: it moves to the most
/// recent end, the others keep their order.
pub open spec fn touched<V>(es: Entries<V>, i: int) -> Entries<V> {
    es.remove(i).push(es[i])
}

/// The entries after inserting `k` with `v` into a cache of capacity `cap`.
pub open spec fn inserted<V>(es: Entries<V>, cap: nat, k: Seq<char>, v: V) -> Entries<V> {
    if has_key(es, k) {
        es.remove(key_index(es, k)).push((k, v))
    } else if es.len() == cap && cap > 0 {
        es.remove(0).push((k, v))
    } else {
        es.push((k, v))
    }
}

/// The entries after removing the one with key `k`, if any.
pub open spec fn removed<V>(es: Entries<V>, k: Seq<char>) -> Entries<V> {
    if has_key(es, k) {
        es.remove(key_index(es, k))
    } else {
        es
    }
}

proof fn lemma_remove_keeps_distinct<V>(es: Entries<V>, i: int)
    requires
        keys_distinct(es),
        0 <= i < es.len(),
    ensures
        keys_distinct(es.remove(i)),
        !has_key(es.remove(i), es[i].0),
        es.remove(i).len() == es.len() - 1,
{
    let r = es.remove(i);
    assert forall|a: int| 0 <= a < r.len() implies (#[trigger] r[a]) == es[if a < i { a } else { a + 1 }] by {}
    assert forall|a: int, b: int|
        0 <= a < r.len() && 0 <= b < r.len() && a != b implies (#[trigger] r[a]).0 != (#[trigger] r[b]).0 by {
        assert(r[a] == es[if a < i { a } else { a + 1 }]);
        assert(r[b] == es[if b < i { b } else { b + 1 }]);
    }
    if has_key(r, es[i].0) {
        let a = choose|a: int| 0 <= a < r.len() && (#[trigger] r[a]).0 == es[i].0;
        assert(r[a] == es[if a < i { a } else { a + 1 }]);
    }
}

proof fn lemma_push_fresh<V>(es: Entries<V>, k: Seq<char>, v: V)
    requires
        keys_distinct(es),
        !has_key(es, k),
    ensures
        keys_distinct(es.push((k, v))),
{
    let r = es.push((k, v));
    assert forall|a: int, b: int|
        0 <= a < r.len() && 0 <= b < r.len() && a != b implies (#[trigger] r[a]).0 != (#[trigger] r[b]).0 by {
        if a < es.len() {
            assert(r[a] == es[a]);
        }
        if b < es.len() {
            assert(r[b] == es[b]);
        }
    }
}

/// The entries after inserting each of `items` in turn.
pub open spec fn inserted_all<V>(es: Entries<V>, cap: nat, items: Entries<V>) -> Entries<V>
    decreases items.len(),
{
    if items.len() == 0 {
        es
    } else {
        let prev = inserted_all(es, cap, items.drop_last());
        inserted(prev, cap, items.last().0, items.last().1)
    }
}

/// Inserting up to `cap` distinct keys into an empty cache keeps them all,
/// in insertion order.
pub proof fn lemma_fill_to_capacity<V>(cap: nat, items: Entries<V>)
    requires
        keys_distinct(items),
        items.len() <= cap,
    ensures
        inserted_all(Seq::empty(), cap, items) == items,
    decreases items.len(),
{
    if items.len() > 0 {
        let prev = items.drop_last();
        assert forall|a: int, b: int|
            0 <= a < prev.len() && 0 <= b < prev.len() && a != b implies (#[trigger] prev[a]).0
            != (#[trigger] prev[b]).0 by {
            assert(prev[a] == items[a] && prev[b] == items[b]);
        }
        lemma_fill_to_capacity(cap, prev);
        if has_key(prev, items.last().0) {
            let a = choose|a: int| 0 <= a < prev.len() && (#[trigger] prev[a]).0 == items.last().0;
            assert(prev[a] == items[a]);
        }
        assert(prev.push(items.last()) =~= items);
    }
}

/// For any capacity of at least one, inserting one more distinct key than the
/// capacity into an empty cache leaves exactly `cap` entries: the first key,
/// the least recently touched, is the one evicted.
pub proof fn lemma_overflow_evicts_least_recent<V>(cap: nat, items: Entries<V>)
    requires
        cap >= 1,
        keys_distinct(items),
        items.len() == cap + 1,
    ensures
        inserted_all(Seq::empty(), cap, items).len() == cap,
        inserted_all(Seq::empty(), cap, items) == items.subrange(1, cap + 1 as int),
        !has_key(inserted_all(Seq::empty(), cap, items), items[0].0),
{
    let prev = items.drop_last();
    assert forall|a: int, b: int|
        0 <= a < prev.len() && 0 <= b < prev.len() && a != b implies (#[trigger] prev[a]).0
        != (#[trigger] prev[b]).0 by {
        assert(prev[a] == items[a] && prev[b] == items[b]);
    }
    lemma_fill_to_capacity(cap, prev);
    if has_key(prev, items.last().0) {
        let a = choose|a: int| 0 <= a < prev.len() && (#[trigger] prev[a]).0 == items.last().0;
        assert(prev[a] == items[a]);
    }
    let r = inserted_all(Seq::empty(), cap, items);
    assert(r =~= items.subrange(1, cap + 1 as int));
    if has_key(r, items[0].0) {
        let a = choose|a: int| 0 <= a < r.len() && (#[trigger] r[a]).0 == items[0].0;
        assert(r[a] == items[a + 1]);
    }
}

/// Inserting a new key at full capacity keeps the size and evicts exactly the
/// least recently touched entry.
pub proof fn lemma_insert_new_at_capacity<V>(es: Entries<V>, cap: nat, k: Seq<char>, v: V)
    requires
        keys_distinct(es),
        cap >= 1,
        es.len() == cap,
        !has_key(es, k),
    ensures
        inserted(es, cap, k, v).len() == cap,
        inserted(es, cap, k, v) == es.subrange(1, cap as int).push((k, v)),
{
    assert(es.remove(0) =~= es.subrange(1, cap as int));
}

/// A hit keeps the size and makes the key the most recently touched.
pub proof fn lemma_get_hit_makes_most_recent<V>(es: Entries<V>, k: Seq<char>)
    requires
        keys_distinct(es),
        has_key(es, k),
    ensures
        touched(es, key_index(es, k)).len() == es.len(),
        touched(es, key_index(es, k)).last().0 == k,
{
}

/// Keeps at most `capacity` models; when a new key arrives at full capacity,
/// the least recently touched entry leaves.
pub struct LruCache<V> {
    capacity: usize,
    entries: Vec<(String, V)>,
}

impl<V> View for LruCache<V> {
    type V = Entries<V>;

    closed spec fn view(&self) -> Entries<V> {
        self.entries@.map_values(|e: (String, V)| (e.0@, e.1))
    }
}

impl<V: Clone> LruCache<V> {
    /// The capacity fixed at construction.
    pub closed spec fn cap(&self) -> nat {
        self.capacity as nat
    }

    /// Keys are distinct, and a positive capacity bounds the size.
    pub open spec fn wf(&self) -> bool {
        &&& keys_distinct(self@)
        &&& self.cap() > 0 ==> self@.len() <= self.cap()
    }

    pub fn new(capacity: usize) -> (r: Self)
        ensures
            r.wf(),
            r@ == Seq::<(Seq<char>, V)>::empty(),
            r.cap() == capacity,
    {
        LruCache { capacity, entries: Vec::new() }
    }

    /// The number of models held.
    pub fn len(&self) -> (r: usize)
        ensures
            r == self@.len(),
    {
        self.entries.len()
    }

    /// The position of the entry with key `id`, if there is one.
    fn position(&self, id: &String) -> (r: Option<usize>)
        requires
            self.wf(),
        ensures
            r.is_none() <==> !has_key(self@, id@),
            r matches Some(i) ==> i < self@.len() && self@[i as int].0 == id@ && key_index(self@, id@) == i,
    {
        let mut i: usize = 0;
        while i < self.entries.len()
            invariant
                0 <= i <= self.entries.len(),
                self.wf(),
                forall|j: int| 0 <= j < i ==> (#[trigger] self@[j]).0 != id@,
            decreases self.entries.len() - i,
        {
            if self.entries[i].0 == *id {
                assert(self@[i as int].0 == id@);
                let ghost k = key_index(self@, id@);
                assert(self@[k].0 == id@);
                return Some(i);
            }
            i = i + 1;
        }
        None
    }

    /// Moves the entry at `i` to the most recent end.
    fn touch(&mut self, i: usize)
        requires
            old(self).wf(),
            i < old(self)@.len(),
        ensures
            final(self).wf(),
            final(self)@ == touched(old(self)@, i as int),
            final(self).cap() == old(self).cap(),
    {
        let e = self.entries.remove(i);
        self.entries.push(e);
        proof {
            let es = old(self)@;
            assert(self@ =~= touched(es, i as int));
            assert forall|a: int, b: int|
                0 <= a < self@.len() && 0 <= b < self@.len() && a != b implies (#[trigger] self@[a]).0
                != (#[trigger] self@[b]).0 by {
                let ia = if a == self@.len() - 1 { i as int } else if a < i { a } else { a + 1 };
                let ib = if b == self@.len() - 1 { i as int } else if b < i { b } else { b + 1 };
                assert(self@[a] == es[ia]);
                assert(self@[b] == es[ib]);
            }
        }
    }

    /// Looks a model up; a hit makes it the most recently touched.
    pub fn get(&mut self, id: &str) -> (r: Option<V>)
        requires
            old(self).wf(),
        ensures
            final(self).wf(),
            final(self).cap() == old(self).cap(),
            r.is_some() <==> has_key(old(self)@, id@),
            has_key(old(self)@, id@) ==> {
                let i = key_index(old(self)@, id@);
                &&& final(self)@ == touched(old(self)@, i)
                &&& cloned(old(self)@[i].1, r->Some_0)
            },
            !has_key(old(self)@, id@) ==> final(self)@ == old(self)@,
    {
        let key = String::from_str(id);
        match self.position(&key) {
            Some(i) => {
                self.touch(i);
                let last = self.entries.len() - 1;
                let v = self.entries[last].1.clone();
                assert(self@[last as int].1 == self.entries@[last as int].1);
                Some(v)
            },
            None => None,
        }
    }

    /// Stores a model under `id`, which becomes the most recently touched.
    pub fn insert(&mut self, id: String, model: V)
        requires
            old(self).wf(),
        ensures
            final(self).wf(),
            final(self).cap() == old(self).cap(),
            final(self)@ == inserted(old(self)@, old(self).cap(), id@, model),
    {
        let ghost es = self@;
        match self.position(&id) {
            Some(i) => {
                self.entries.remove(i);
                proof { lemma_remove_keeps_distinct(es, i as int); }
                self.entries.push((id, model));
                proof { lemma_push_fresh(es.remove(i as int), id@, model); }
            },
            None => {
                if self.entries.len() == self.capacity && self.capacity > 0 {
                    self.entries.remove(0);
                    proof {
                        lemma_remove_keeps_distinct(es, 0);
                        lemma_push_fresh(es.remove(0), id@, model);
                    }
                } else {
                    proof { lemma_push_fresh(es, id@, model); }
                }
                self.entries.push((id, model));
            },
        }
        proof {
            assert(self@ =~= inserted(es, self.cap(), id@, model));
        }
    }

    /// Forgets the model stored under `id`, if any.
    pub fn remove(&mut self, id: &str)
        requires
            old(self).wf(),
        ensures
            final(self).wf(),
            final(self).cap() == old(self).cap(),
            final(self)@ == removed(old(self)@, id@),
    {
        let key = String::from_str(id);
        if let Some(i) = self.position(&key) {
            self.entries.remove(i);
            proof {
                assert(self@ =~= removed(old(self)@, id@));
            }
        }
    }

    /// Forgets every model.
    pub fn clear(&mut self)
        requires
            old(self).wf(),
        ensures
            final(self).wf(),
            final(self).cap() == old(self).cap(),
            final(self)@ == Seq::<(Seq<char>, V)>::empty(),
    {
        self.entries.clear();
        assert(self@ =~= Seq::<(Seq<char>, V)>::empty());
    }
}

} // verus!
