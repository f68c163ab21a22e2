//! Maps keyed by number, in order of insertion.

use vstd::prelude::*;

verus! {

spec fn as_map<T>(keys: Seq<u32>, vals: Seq<T>) -> Map<u32, T> {
    Map::new(|k: u32| keys.contains(k), |k: u32| vals[keys.index_of(k)])
}

proof fn lemma_at<T>(keys: Seq<u32>, vals: Seq<T>, i: int)
    requires
        keys.no_duplicates(),
        0 <= i < keys.len(),
    ensures
        as_map(keys, vals).contains_key(keys[i]),
        as_map(keys, vals)[keys[i]] == vals[i],
{
    assert(keys.contains(keys[i]));
}

proof fn lemma_update<T>(keys: Seq<u32>, vals: Seq<T>, i: int, v: T)
    requires
        keys.no_duplicates(),
        keys.len() == vals.len(),
        0 <= i < keys.len(),
    ensures
        as_map(keys, vals.update(i, v)) == as_map(keys, vals).insert(keys[i], v),
{
    let a = as_map(keys, vals.update(i, v));
    let b = as_map(keys, vals).insert(keys[i], v);
    lemma_at(keys, vals, i);
    assert(a.dom() =~= b.dom());
    assert forall|k: u32| a.contains_key(k) implies a[k] == b[k] by {
        let j = choose|j: int| 0 <= j < keys.len() && keys[j] == k;
        lemma_at(keys, vals, j);
        lemma_at(keys, vals.update(i, v), j);
    }
    assert(a =~= b);
}

proof fn lemma_push<T>(keys: Seq<u32>, vals: Seq<T>, k: u32, v: T)
    requires
        keys.no_duplicates(),
        keys.len() == vals.len(),
        !keys.contains(k),
    ensures
        keys.push(k).no_duplicates(),
        as_map(keys.push(k), vals.push(v)) == as_map(keys, vals).insert(k, v),
{
    let a = as_map(keys.push(k), vals.push(v));
    let b = as_map(keys, vals).insert(k, v);
    let n = keys.len() as int;
    assert(keys.push(k)[n] == k);
    assert forall|x: u32| a.contains_key(x) == b.contains_key(x) by {
        if keys.contains(x) {
            let j = choose|j: int| 0 <= j < keys.len() && keys[j] == x;
            assert(keys.push(k)[j] == x);
        }
        if keys.push(k).contains(x) && x != k {
            let j = choose|j: int| 0 <= j < keys.push(k).len() && keys.push(k)[j] == x;
            assert(keys[j] == x);
        }
    }
    assert forall|x: u32| a.contains_key(x) implies a[x] == b[x] by {
        let j = choose|j: int| 0 <= j < keys.push(k).len() && keys.push(k)[j] == x;
        lemma_at(keys.push(k), vals.push(v), j);
        if j < n {
            lemma_at(keys, vals, j);
        }
    }
    assert(a =~= b);
}

proof fn lemma_remove<T>(keys: Seq<u32>, vals: Seq<T>, i: int)
    requires
        keys.no_duplicates(),
        keys.len() == vals.len(),
        0 <= i < keys.len(),
    ensures
        keys.remove(i).no_duplicates(),
        as_map(keys.remove(i), vals.remove(i)) == as_map(keys, vals).remove(keys[i]),
{
    let ks = keys.remove(i);
    let vs = vals.remove(i);
    let a = as_map(ks, vs);
    let b = as_map(keys, vals).remove(keys[i]);
    assert forall|x: u32| a.contains_key(x) == b.contains_key(x) by {
        if ks.contains(x) {
            let j = choose|j: int| 0 <= j < ks.len() && ks[j] == x;
            if j < i {
                assert(keys[j] == x);
            } else {
                assert(keys[j + 1] == x);
            }
        }
        if keys.contains(x) && x != keys[i] {
            let j = choose|j: int| 0 <= j < keys.len() && keys[j] == x;
            if j < i {
                assert(ks[j] == x);
            } else {
                assert(ks[j - 1] == x);
            }
        }
    }
    assert forall|x: u32| a.contains_key(x) implies a[x] == b[x] by {
        let j = choose|j: int| 0 <= j < ks.len() && ks[j] == x;
        lemma_at(ks, vs, j);
        if j < i {
            lemma_at(keys, vals, j);
        } else {
            lemma_at(keys, vals, j + 1);
        }
    }
    assert(a =~= b);
}

/// A map from numbers to values.
#[derive(Debug, Clone)]
pub struct IdMap<T> {
    keys: Vec<u32>,
    vals: Vec<T>,
}

impl<T> View for IdMap<T> {
    type V = Map<u32, T>;

    closed spec fn view(&self) -> Map<u32, T> {
        as_map(self.keys@, self.vals@)
    }
}

impl<T> IdMap<T> {
    /// No number is held twice, and each has one value.
    pub closed spec fn wf(self) -> bool {
        &&& self.keys@.no_duplicates()
        &&& self.keys@.len() == self.vals@.len()
    }

    /// The numbers, in order of insertion.
    pub closed spec fn order(self) -> Seq<u32> {
        self.keys@
    }

    /// How the order and the map belong together.
    pub proof fn lemma_order(self)
        requires
            self.wf(),
        ensures
            self.order().no_duplicates(),
            self@.dom() == self.order().to_set(),
            forall|n: u32| self@.contains_key(n) <==> #[trigger] self.order().contains(n),
    {
        assert(self@.dom() =~= self.order().to_set());
    }

    /// The place of a number, or the number of entries.
    fn position(&self, id: u32) -> (r: usize)
        ensures
            r <= self.keys@.len(),
            r < self.keys@.len() ==> self.keys@[r as int] == id,
            r < self.keys@.len() <==> self.keys@.contains(id),
    {
        let mut i: usize = 0;
        while i < self.keys.len()
            invariant
                i <= self.keys@.len(),
                forall|j: int| 0 <= j < i ==> self.keys@[j] != id,
            decreases self.keys@.len() - i,
        {
            if self.keys[i] == id {
                return i;
            }
            i += 1;
        }
        i
    }

    /// The empty map.
    pub fn new() -> (r: Self)
        ensures
            r.wf(),
            r@ == Map::<u32, T>::empty(),
            r.order() == Seq::<u32>::empty(),
    {
        let r = IdMap { keys: Vec::new(), vals: Vec::new() };
        assert(r@ =~= Map::<u32, T>::empty());
        r
    }

    /// The number of entries.
    pub fn len(&self) -> (r: usize)
        requires
            self.wf(),
        ensures
            r == self.order().len(),
    {
        self.keys.len()
    }

    /// The number at a place in the order.
    pub fn key_at(&self, i: usize) -> (r: u32)
        requires
            i < self.order().len(),
        ensures
            r == self.order()[i as int],
    {
        self.keys[i]
    }

    /// The value of the number at a place in the order.
    pub fn value_at(&self, i: usize) -> (r: &T)
        requires
            self.wf(),
            i < self.order().len(),
        ensures
            self@.contains_key(self.order()[i as int]),
            *r == self@[self.order()[i as int]],
    {
        proof {
            lemma_at(self.keys@, self.vals@, i as int);
        }
        &self.vals[i]
    }

    /// Whether `id` has a value.
    pub fn contains_key(&self, id: u32) -> (r: bool)
        ensures
            r == self@.contains_key(id),
    {
        self.position(id) < self.keys.len()
    }

    /// The value of `id`.
    pub fn get(&self, id: u32) -> (r: Option<&T>)
        requires
            self.wf(),
        ensures
            match r {
                Some(v) => self@.contains_key(id) && *v == self@[id],
                None => !self@.contains_key(id),
            },
    {
        let i = self.position(id);
        if i < self.keys.len() {
            proof {
                lemma_at(self.keys@, self.vals@, i as int);
            }
            Some(&self.vals[i])
        } else {
            None
        }
    }

    /// The value of `id`, for change.
    pub fn get_mut(&mut self, id: u32) -> (r: Option<&mut T>)
        requires
            old(self).wf(),
        ensures
            r is Some <==> old(self)@.contains_key(id),
            match r {
                Some(v) => *v == old(self)@[id] && final(self)@ == old(self)@.insert(
                    id,
                    *final(v),
                ),
                None => final(self)@ == old(self)@,
            },
            final(self).wf(),
            final(self).order() == old(self).order(),
    {
        let i = self.position(id);
        if i < self.keys.len() {
            let ghost keys = self.keys@;
            let ghost vals = self.vals@;
            let r = &mut self.vals[i];
            proof {
                lemma_at(keys, vals, i as int);
                lemma_update(keys, vals, i as int, *final(r));
            }
            Some(r)
        } else {
            None
        }
    }

    /// Gives `id` a value. A number that is already there keeps its place.
    pub fn insert(&mut self, id: u32, value: T)
        requires
            old(self).wf(),
        ensures
            final(self).wf(),
            final(self)@ == old(self)@.insert(id, value),
            final(self).order() == if old(self)@.contains_key(id) {
                old(self).order()
            } else {
                old(self).order().push(id)
            },
    {
        let i = self.position(id);
        let ghost keys = self.keys@;
        let ghost vals = self.vals@;
        if i < self.keys.len() {
            proof {
                lemma_update(keys, vals, i as int, value);
            }
            self.vals.set(i, value);
        } else {
            proof {
                lemma_push(keys, vals, id, value);
            }
            self.keys.push(id);
            self.vals.push(value);
        }
    }

    /// Takes out the entry of `id`.
    pub fn remove(&mut self, id: u32) -> (r: Option<T>)
        requires
            old(self).wf(),
        ensures
            final(self).wf(),
            final(self)@ == old(self)@.remove(id),
            match r {
                Some(v) => old(self)@.contains_key(id) && v == old(self)@[id],
                None => !old(self)@.contains_key(id),
            },
    {
        let i = self.position(id);
        let ghost keys = self.keys@;
        let ghost vals = self.vals@;
        if i < self.keys.len() {
            proof {
                lemma_at(keys, vals, i as int);
                lemma_remove(keys, vals, i as int);
            }
            let k = self.keys.remove(i);
            let v = self.vals.remove(i);
            Some(v)
        } else {
            assert(as_map(keys, vals) =~= as_map(keys, vals).remove(id));
            None
        }
    }
}

} // verus!
