//! The order of texts, and sorting by it.

use crate::text::{chars_of, texts};
use vstd::prelude::*;

verus! {

/// Whether `a` comes before `b`: at the first place where they differ it has
/// the lower character, or it is a shorter start of `b`.
pub open spec fn before(a: Seq<char>, b: Seq<char>) -> bool
    decreases a.len(),
{
    if b.len() == 0 {
        false
    } else if a.len() == 0 {
        true
    } else if a[0] != b[0] {
        a[0] < b[0]
    } else {
        before(a.drop_first(), b.drop_first())
    }
}

/// The order is strict and total.
pub proof fn lemma_before_total(a: Seq<char>, b: Seq<char>)
    ensures
        !(before(a, b) && before(b, a)),
        before(a, b) || before(b, a) || a == b,
        a == b ==> !before(a, b),
    decreases a.len(),
{
    if a.len() == 0 || b.len() == 0 {
        if a.len() == 0 && b.len() == 0 {
            assert(a =~= b);
        }
    } else if a[0] == b[0] {
        lemma_before_total(a.drop_first(), b.drop_first());
        if a.drop_first() == b.drop_first() {
            assert(a =~= seq![a[0]] + a.drop_first());
            assert(b =~= seq![b[0]] + b.drop_first());
        }
    }
}

/// The order is transitive.
pub proof fn lemma_before_transitive(a: Seq<char>, b: Seq<char>, c: Seq<char>)
    requires
        before(a, b),
        before(b, c),
    ensures
        before(a, c),
    decreases a.len(),
{
    if a.len() > 0 && b.len() > 0 && c.len() > 0 && a[0] == b[0] && b[0] == c[0] {
        lemma_before_transitive(a.drop_first(), b.drop_first(), c.drop_first());
    }
}

/// Whether `a` comes before `b`.
pub fn comes_before(a: &str, b: &str) -> (r: bool)
    ensures
        r == before(a@, b@),
{
    let x = chars_of(a);
    let y = chars_of(b);
    let mut i: usize = 0;
    assert(x@.skip(0) =~= x@);
    assert(y@.skip(0) =~= y@);
    while i < x.len() && i < y.len()
        invariant
            i <= x.len(),
            i <= y.len(),
            x@ == a@,
            y@ == b@,
            before(x@.skip(i as int), y@.skip(i as int)) == before(a@, b@),
        decreases x.len() - i,
    {
        proof {
            assert(x@.skip(i as int)[0] == x@[i as int]);
            assert(y@.skip(i as int)[0] == y@[i as int]);
            assert(x@.skip(i as int).drop_first() =~= x@.skip(i + 1));
            assert(y@.skip(i as int).drop_first() =~= y@.skip(i + 1));
        }
        if x[i] != y[i] {
            return x[i] < y[i];
        }
        i += 1;
    }
    i < y.len()
}

/// Whether the entry at `i` goes before that at `j` when they are sorted:
/// equal ones keep their order.
pub open spec fn goes_first(names: Seq<Seq<char>>, i: int, j: int) -> bool {
    before(names[i], names[j]) || (names[i] == names[j] && i < j)
}

/// Whether `p` lists the places of `names` in sorted order.
pub open spec fn sorted_places(names: Seq<Seq<char>>, p: Seq<usize>) -> bool {
    &&& p.len() == names.len()
    &&& forall|k: int| 0 <= k < p.len() ==> (#[trigger] p[k]) < names.len()
    &&& forall|i: int, j: int|
        0 <= i < j < p.len() ==> goes_first(names, (#[trigger] p[i]) as int, (#[trigger] p[j]) as int)
}

proof fn lemma_goes_first(names: Seq<Seq<char>>, i: int, j: int, k: int)
    ensures
        goes_first(names, i, j) && goes_first(names, j, k) ==> goes_first(names, i, k),
        i != j ==> goes_first(names, i, j) || goes_first(names, j, i),
        !(goes_first(names, i, j) && goes_first(names, j, i)),
{
    lemma_before_total(names[i], names[j]);
    if before(names[i], names[j]) && before(names[j], names[k]) {
        lemma_before_transitive(names[i], names[j], names[k]);
    }
}

/// Sorted places are all different, so that every place occurs once.
pub proof fn sorted_places_are_distinct(names: Seq<Seq<char>>, p: Seq<usize>)
    requires
        sorted_places(names, p),
    ensures
        p.no_duplicates(),
{
    assert forall|i: int, j: int| 0 <= i < p.len() && 0 <= j < p.len() && i != j implies p[i]
        != p[j] by {
        if i < j {
            assert(goes_first(names, p[i] as int, p[j] as int));
            lemma_before_total(names[p[i] as int], names[p[j] as int]);
        } else {
            assert(goes_first(names, p[j] as int, p[i] as int));
            lemma_before_total(names[p[i] as int], names[p[j] as int]);
        }
    }
}

/// The places of `names` in sorted order.
pub fn sort_places(names: &Vec<String>) -> (r: Vec<usize>)
    ensures
        sorted_places(texts(names@), r@),
{
    let ghost o = texts(names@);
    let mut r: Vec<usize> = Vec::new();
    let mut n: usize = 0;
    while n < names.len()
        invariant
            n <= names.len(),
            o == texts(names@),
            r@.len() == n,
            forall|k: int| 0 <= k < n ==> (#[trigger] r@[k]) < n,
            forall|i: int, j: int|
                0 <= i < j < n ==> goes_first(o, (#[trigger] r@[i]) as int, (#[trigger] r@[j]) as int),
        decreases names.len() - n,
    {
        let mut at: usize = n;
        while at > 0 && comes_before(names[n].as_str(), names[r[at - 1]].as_str())
            invariant
                at <= n,
                n < names.len(),
                o == texts(names@),
                r@.len() == n,
                forall|k: int| 0 <= k < n ==> (#[trigger] r@[k]) < n,
                forall|k: int| at <= k < n ==> goes_first(o, n as int, (#[trigger] r@[k]) as int),
            decreases at,
        {
            at -= 1;
        }
        let ghost r0 = r@;
        proof {
            assert forall|k: int| 0 <= k < at implies goes_first(
                o,
                (#[trigger] r0[k]) as int,
                n as int,
            ) by {
                let last = r0[at - 1] as int;
                assert(!before(o[n as int], o[last]));
                lemma_before_total(o[last], o[n as int]);
                assert(goes_first(o, last, n as int));
                if k < at - 1 {
                    assert(goes_first(o, r0[k] as int, last));
                    lemma_goes_first(o, r0[k] as int, last, n as int);
                }
            }
        }
        r.insert(at, n);
        proof {
            assert forall|i: int, j: int| 0 <= i < j < n + 1 implies goes_first(
                o,
                (#[trigger] r@[i]) as int,
                (#[trigger] r@[j]) as int,
            ) by {
                if j == at {
                    assert(r@[i] == r0[i]);
                } else if i == at {
                    assert(r@[j] == r0[j - 1]);
                } else {
                    let a = if i < at {
                        i
                    } else {
                        i - 1
                    };
                    let b = if j < at {
                        j
                    } else {
                        j - 1
                    };
                    assert(r@[i] == r0[a] && r@[j] == r0[b]);
                }
            }
            assert forall|k: int| 0 <= k < n + 1 implies (#[trigger] r@[k]) < n + 1 by {
                if k < at {
                    assert(r@[k] == r0[k]);
                } else if k > at {
                    assert(r@[k] == r0[k - 1]);
                }
            }
        }
        n += 1;
    }
    r
}

/// Every place occurs among sorted places.
pub proof fn every_place_occurs(names: Seq<Seq<char>>, p: Seq<usize>, i: int)
    requires
        sorted_places(names, p),
        0 <= i < names.len(),
    ensures
        exists|k: int| 0 <= k < p.len() && #[trigger] p[k] == i,
{
    sorted_places_are_distinct(names, p);
    let q = p.map_values(|x: usize| x as int);
    let n: int = names.len() as int;
    assert(q.no_duplicates());
    q.unique_seq_to_set();
    let full = vstd::set_lib::set_int_range(0, n);
    vstd::set_lib::lemma_int_range(0, n);
    vstd::seq_lib::seq_to_set_is_finite(q);
    assert(q.to_set().subset_of(full)) by {
        assert forall|x: int| q.to_set().contains(x) implies full.contains(x) by {
            let k = choose|k: int| 0 <= k < q.len() && q[k] == x;
            assert(p[k] < names.len());
        }
    }
    vstd::set_lib::lemma_subset_equality(q.to_set(), full);
    assert(full.contains(i));
    let k = choose|k: int| 0 <= k < q.len() && q[k] == i;
    assert(p[k] == i);
}

/// Names that are sorted come in their order: none stands before one that is
/// smaller.
pub proof fn sorted_names_are_in_order(names: Seq<Seq<char>>, p: Seq<usize>, i: int, j: int)
    requires
        sorted_places(names, p),
        0 <= i < j < p.len(),
    ensures
        !before(names[p[j] as int], names[p[i] as int]),
        names[p[i] as int] == names[p[j] as int] ==> p[i] < p[j],
{
    assert(goes_first(names, p[i] as int, p[j] as int));
    lemma_before_total(names[p[i] as int], names[p[j] as int]);
}

} // verus!
