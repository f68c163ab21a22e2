//! Sets and maps keyed by name, in order of insertion.

use crate::text::{str_eq, texts};
use vstd::prelude::*;

verus! {

/// The place of `name` in `v`, or the length of `v`.
pub fn position(v: &Vec<String>, name: &str) -> (r: usize)
    ensures
        r <= v.len(),
        r < v.len() ==> v@[r as int]@ == name@,
        r == v.len() ==> !texts(v@).contains(name@),
        r < v.len() <==> texts(v@).contains(name@),
        forall|j: int| 0 <= j < r ==> #[trigger] v@[j]@ != name@,
{
    let mut i: usize = 0;
    while i < v.len()
        invariant
            i <= v.len(),
            forall|j: int| 0 <= j < i ==> #[trigger] v@[j]@ != name@,
        decreases v.len() - i,
    {
        if str_eq(v[i].as_str(), name) {
            assert(texts(v@)[i as int] == name@);
            return i;
        }
        i += 1;
    }
    assert forall|j: int| 0 <= j < v@.len() implies #[trigger] texts(v@)[j] != name@ by {}
    i
}

/// Whether `name` is one of the strings in `v`.
pub fn contains_name(v: &Vec<String>, name: &str) -> (r: bool)
    ensures
        r == texts(v@).contains(name@),
{
    position(v, name) < v.len()
}

/// A set of names.
#[derive(Debug, Clone)]
pub struct NameSet {
    items: Vec<String>,
}

impl View for NameSet {
    type V = Set<Seq<char>>;

    closed spec fn view(&self) -> Set<Seq<char>> {
        texts(self.items@).to_set()
    }
}

impl NameSet {
    /// No name is held twice.
    pub closed spec fn wf(self) -> bool {
        texts(self.items@).no_duplicates()
    }

    /// The names, in order of insertion.
    pub closed spec fn order(self) -> Seq<Seq<char>> {
        texts(self.items@)
    }

    /// How the order and the set of names belong together.
    pub proof fn lemma_order(self)
        requires
            self.wf(),
        ensures
            self.order().no_duplicates(),
            self@ == self.order().to_set(),
            self@.finite(),
            self@.len() == self.order().len(),
            forall|n: Seq<char>| self@.contains(n) <==> #[trigger] self.order().contains(n),
            forall|i: int| 0 <= i < self.order().len() ==> self@.contains(#[trigger] self.order()[i]),
    {
        self.order().unique_seq_to_set();
    }

    /// The empty set.
    pub fn new() -> (r: Self)
        ensures
            r.wf(),
            r@ == Set::<Seq<char>>::empty(),
            r.order() == Seq::<Seq<char>>::empty(),
    {
        let r = NameSet { items: Vec::new() };
        assert(texts(r.items@) == Seq::<Seq<char>>::empty());
        assert(r@ == Set::<Seq<char>>::empty());
        r
    }

    /// The number of names.
    pub fn len(&self) -> (r: usize)
        requires
            self.wf(),
        ensures
            r == self@.len(),
            r == self.order().len(),
    {
        proof {
            self.lemma_order();
        }
        self.items.len()
    }

    /// Whether there are no names.
    pub fn is_empty(&self) -> (r: bool)
        requires
            self.wf(),
        ensures
            r == (self@ == Set::<Seq<char>>::empty()),
            r == (self.order().len() == 0),
    {
        proof {
            self.lemma_order();
            if self.items@.len() > 0 {
                assert(self@.contains(self.order()[0]));
            } else {
                assert(self@ =~= Set::<Seq<char>>::empty());
            }
        }
        self.items.len() == 0
    }

    /// The name at a place in the order.
    pub fn at(&self, i: usize) -> (r: &String)
        requires
            i < self.order().len(),
        ensures
            r@ == self.order()[i as int],
    {
        &self.items[i]
    }

    /// Whether `name` is in the set.
    pub fn contains(&self, name: &str) -> (r: bool)
        ensures
            r == self@.contains(name@),
            r == self.order().contains(name@),
    {
        contains_name(&self.items, name)
    }

    /// Adds a name; a name that is already there stays where it is.
    pub fn insert(&mut self, name: String)
        requires
            old(self).wf(),
        ensures
            final(self).wf(),
            final(self)@ == old(self)@.insert(name@),
            final(self).order() == if old(self)@.contains(name@) {
                old(self).order()
            } else {
                old(self).order().push(name@)
            },
    {
        if contains_name(&self.items, name.as_str()) {
            assert(self@ =~= self@.insert(name@));
        } else {
            let ghost before = *self;
            self.items.push(name);
            proof {
                assert(texts(self.items@) == before.order().push(name@));
                self.order().lemma_push_to_set_commute(name@);
                before.order().lemma_push_to_set_commute(name@);
                assert(self.order().no_duplicates());
            }
        }
    }

    /// Takes a name out, and says whether it was there.
    pub fn remove(&mut self, name: &str) -> (r: bool)
        requires
            old(self).wf(),
        ensures
            final(self).wf(),
            r == old(self)@.contains(name@),
            final(self)@ == old(self)@.remove(name@),
    {
        let i = position(&self.items, name);
        let ghost before = *self;
        if i < self.items.len() {
            let gone = self.items.remove(i);
            proof {
                let o = before.order();
                assert(self.order() == o.remove(i as int));
                assert forall|n: Seq<char>| self@.contains(n) == before@.remove(name@).contains(n) by {
                    if self.order().contains(n) {
                        let k = choose|k: int| 0 <= k < self.order().len() && self.order()[k] == n;
                        if k < i {
                            assert(o[k] == n);
                        } else {
                            assert(o[k + 1] == n);
                        }
                        assert(o[i as int] == name@);
                    }
                    if before@.remove(name@).contains(n) {
                        let k = choose|k: int| 0 <= k < o.len() && o[k] == n;
                        if k < i {
                            assert(self.order()[k] == n);
                        } else {
                            assert(self.order()[k - 1] == n);
                        }
                    }
                }
                assert(self@ =~= before@.remove(name@));
            }
            true
        } else {
            assert(self@ =~= before@.remove(name@));
            false
        }
    }

    /// A copy of the set.
    pub fn copy(&self) -> (r: Self)
        requires
            self.wf(),
        ensures
            r.wf(),
            r@ == self@,
            r.order() == self.order(),
    {
        NameSet { items: crate::text::clone_strings(&self.items) }
    }
}

/// The map from each of `keys` to the value at the same place in `vals`.
spec fn as_map<T>(keys: Seq<Seq<char>>, vals: Seq<T>) -> Map<Seq<char>, T> {
    Map::new(|k: Seq<char>| keys.contains(k), |k: Seq<char>| vals[keys.index_of(k)])
}

proof fn lemma_at<T>(keys: Seq<Seq<char>>, vals: Seq<T>, i: int)
    requires
        keys.no_duplicates(),
        0 <= i < keys.len(),
    ensures
        as_map(keys, vals).contains_key(keys[i]),
        as_map(keys, vals)[keys[i]] == vals[i],
{
    assert(keys.contains(keys[i]));
}

proof fn lemma_update<T>(keys: Seq<Seq<char>>, vals: Seq<T>, i: int, v: T)
    requires
        keys.no_duplicates(),
        keys.len() == vals.len(),
        0 <= i < keys.len(),
    ensures
        as_map(keys, vals.update(i, v)) == as_map(keys, vals).insert(keys[i], v),
{
    let a = as_map(keys, vals.update(i, v));
    let b = as_map(keys, vals).insert(keys[i], v);
    lemma_at(keys, vals, i);
    assert(a.dom() =~= b.dom());
    assert forall|k: Seq<char>| a.contains_key(k) implies a[k] == b[k] by {
        let j = choose|j: int| 0 <= j < keys.len() && keys[j] == k;
        lemma_at(keys, vals, j);
        lemma_at(keys, vals.update(i, v), j);
    }
    assert(a =~= b);
}

proof fn lemma_push<T>(keys: Seq<Seq<char>>, vals: Seq<T>, k: Seq<char>, v: T)
    requires
        keys.no_duplicates(),
        keys.len() == vals.len(),
        !keys.contains(k),
    ensures
        keys.push(k).no_duplicates(),
        as_map(keys.push(k), vals.push(v)) == as_map(keys, vals).insert(k, v),
{
    let a = as_map(keys.push(k), vals.push(v));
    let b = as_map(keys, vals).insert(k, v);
    let n = keys.len() as int;
    assert(keys.push(k)[n] == k);
    assert forall|x: Seq<char>| a.contains_key(x) == b.contains_key(x) by {
        if keys.contains(x) {
            let j = choose|j: int| 0 <= j < keys.len() && keys[j] == x;
            assert(keys.push(k)[j] == x);
        }
        if keys.push(k).contains(x) && x != k {
            let j = choose|j: int| 0 <= j < keys.push(k).len() && keys.push(k)[j] == x;
            assert(keys[j] == x);
        }
    }
    assert forall|x: Seq<char>| a.contains_key(x) implies a[x] == b[x] by {
        let j = choose|j: int| 0 <= j < keys.push(k).len() && keys.push(k)[j] == x;
        lemma_at(keys.push(k), vals.push(v), j);
        if j < n {
            lemma_at(keys, vals, j);
        }
    }
    assert(a =~= b);
}

proof fn lemma_remove<T>(keys: Seq<Seq<char>>, vals: Seq<T>, i: int)
    requires
        keys.no_duplicates(),
        keys.len() == vals.len(),
        0 <= i < keys.len(),
    ensures
        keys.remove(i).no_duplicates(),
        as_map(keys.remove(i), vals.remove(i)) == as_map(keys, vals).remove(keys[i]),
{
    let ks = keys.remove(i);
    let vs = vals.remove(i);
    let a = as_map(ks, vs);
    let b = as_map(keys, vals).remove(keys[i]);
    assert forall|x: Seq<char>| a.contains_key(x) == b.contains_key(x) by {
        if ks.contains(x) {
            let j = choose|j: int| 0 <= j < ks.len() && ks[j] == x;
            if j < i {
                assert(keys[j] == x);
            } else {
                assert(keys[j + 1] == x);
            }
        }
        if keys.contains(x) && x != keys[i] {
            let j = choose|j: int| 0 <= j < keys.len() && keys[j] == x;
            if j < i {
                assert(ks[j] == x);
            } else {
                assert(ks[j - 1] == x);
            }
        }
    }
    assert forall|x: Seq<char>| a.contains_key(x) implies a[x] == b[x] by {
        let j = choose|j: int| 0 <= j < ks.len() && ks[j] == x;
        lemma_at(ks, vs, j);
        if j < i {
            lemma_at(keys, vals, j);
        } else {
            lemma_at(keys, vals, j + 1);
        }
    }
    assert(a =~= b);
}

/// A map from names to values.
#[derive(Debug, Clone)]
pub struct NameMap<T> {
    keys: Vec<String>,
    vals: Vec<T>,
}

impl<T> View for NameMap<T> {
    type V = Map<Seq<char>, T>;

    closed spec fn view(&self) -> Map<Seq<char>, T> {
        as_map(texts(self.keys@), self.vals@)
    }
}

impl<T> NameMap<T> {
    /// No name is held twice, and each has one value.
    pub closed spec fn wf(self) -> bool {
        &&& texts(self.keys@).no_duplicates()
        &&& self.keys@.len() == self.vals@.len()
    }

    /// The names, in order of insertion.
    pub closed spec fn order(self) -> Seq<Seq<char>> {
        texts(self.keys@)
    }

    /// How the order and the map belong together.
    pub proof fn lemma_order(self)
        requires
            self.wf(),
        ensures
            self.order().no_duplicates(),
            self@.dom() == self.order().to_set(),
            self@.dom().finite(),
            self@.len() == self.order().len(),
            forall|n: Seq<char>| self@.contains_key(n) <==> #[trigger] self.order().contains(n),
            forall|i: int|
                0 <= i < self.order().len() ==> self@.contains_key(#[trigger] self.order()[i]),
    {
        self.order().unique_seq_to_set();
        assert(self@.dom() =~= self.order().to_set());
    }

    /// The empty map.
    pub fn new() -> (r: Self)
        ensures
            r.wf(),
            r@ == Map::<Seq<char>, T>::empty(),
            r.order() == Seq::<Seq<char>>::empty(),
    {
        let r = NameMap { keys: Vec::new(), vals: Vec::new() };
        assert(texts(r.keys@) == Seq::<Seq<char>>::empty());
        assert(r@ =~= Map::<Seq<char>, T>::empty());
        r
    }

    /// The number of entries.
    pub fn len(&self) -> (r: usize)
        requires
            self.wf(),
        ensures
            r == self@.len(),
            r == self.order().len(),
    {
        proof {
            self.lemma_order();
        }
        self.keys.len()
    }

    /// The name at a place in the order.
    pub fn key_at(&self, i: usize) -> (r: &String)
        requires
            i < self.order().len(),
        ensures
            r@ == self.order()[i as int],
    {
        &self.keys[i]
    }

    /// The value of the name at a place in the order.
    pub fn value_at(&self, i: usize) -> (r: &T)
        requires
            self.wf(),
            i < self.order().len(),
        ensures
            self@.contains_key(self.order()[i as int]),
            *r == self@[self.order()[i as int]],
    {
        proof {
            lemma_at(texts(self.keys@), self.vals@, i as int);
        }
        &self.vals[i]
    }

    /// Whether `name` has a value.
    pub fn contains_key(&self, name: &str) -> (r: bool)
        ensures
            r == self@.contains_key(name@),
            r == self.order().contains(name@),
    {
        contains_name(&self.keys, name)
    }

    /// The value of `name`.
    pub fn get(&self, name: &str) -> (r: Option<&T>)
        requires
            self.wf(),
        ensures
            match r {
                Some(v) => self@.contains_key(name@) && *v == self@[name@],
                None => !self@.contains_key(name@),
            },
    {
        let i = position(&self.keys, name);
        if i < self.keys.len() {
            proof {
                lemma_at(texts(self.keys@), self.vals@, i as int);
            }
            Some(&self.vals[i])
        } else {
            None
        }
    }

    /// The value of `name`, for change.
    pub fn get_mut(&mut self, name: &str) -> (r: Option<&mut T>)
        requires
            old(self).wf(),
        ensures
            r is Some <==> old(self)@.contains_key(name@),
            match r {
                Some(v) => *v == old(self)@[name@] && final(self)@ == old(self)@.insert(
                    name@,
                    *final(v),
                ),
                None => final(self)@ == old(self)@,
            },
            final(self).wf(),
            final(self).order() == old(self).order(),
    {
        let i = position(&self.keys, name);
        if i < self.keys.len() {
            let ghost keys = texts(self.keys@);
            let ghost vals = self.vals@;
            let r = &mut self.vals[i];
            proof {
                lemma_at(keys, vals, i as int);
                lemma_update(keys, vals, i as int, *final(r));
            }
            Some(r)
        } else {
            None
        }
    }

    /// Gives `name` a value. A name that is already there keeps its place.
    pub fn insert(&mut self, name: String, value: T)
        requires
            old(self).wf(),
        ensures
            final(self).wf(),
            final(self)@ == old(self)@.insert(name@, value),
            final(self).order() == if old(self)@.contains_key(name@) {
                old(self).order()
            } else {
                old(self).order().push(name@)
            },
    {
        let i = position(&self.keys, name.as_str());
        let ghost keys = texts(self.keys@);
        let ghost vals = self.vals@;
        if i < self.keys.len() {
            proof {
                lemma_update(keys, vals, i as int, value);
            }
            self.vals.set(i, value);
        } else {
            proof {
                lemma_push(keys, vals, name@, value);
            }
            self.keys.push(name);
            self.vals.push(value);
            assert(texts(self.keys@) == keys.push(name@));
        }
    }

    /// Takes out the entry of `name`.
    pub fn remove(&mut self, name: &str) -> (r: Option<T>)
        requires
            old(self).wf(),
        ensures
            final(self).wf(),
            final(self)@ == old(self)@.remove(name@),
            match r {
                Some(v) => old(self)@.contains_key(name@) && v == old(self)@[name@],
                None => !old(self)@.contains_key(name@),
            },
            final(self).order() == if old(self)@.contains_key(name@) {
                old(self).order().remove(old(self).order().index_of(name@))
            } else {
                old(self).order()
            },
    {
        let i = position(&self.keys, name);
        let ghost keys = texts(self.keys@);
        let ghost vals = self.vals@;
        if i < self.keys.len() {
            proof {
                lemma_at(keys, vals, i as int);
                lemma_remove(keys, vals, i as int);
                assert(keys.index_of(name@) == i);
            }
            let k = self.keys.remove(i);
            let v = self.vals.remove(i);
            assert(texts(self.keys@) == keys.remove(i as int));
            Some(v)
        } else {
            proof {
                assert(as_map(keys, vals) =~= as_map(keys, vals).remove(name@));
            }
            None
        }
    }
}

} // verus!
