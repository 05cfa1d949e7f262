use std::collections::BTreeMap;
use std::collections::BTreeSet;
use vstd::prelude::*;
use vstd::std_specs::cmp::OrdSpec;
use vstd::std_specs::iter::IteratorSpec;

verus! {

/// Whether a sequence of identifiers goes strictly upwards.
pub open spec fn increasing(s: Seq<u32>) -> bool {
    forall|i: int, j: int| 0 <= i < j < s.len() ==> s[i] < s[j]
}

/// The identifiers of a list of entries, in order.
pub open spec fn entry_keys<V>(entries: Seq<(u32, V)>) -> Seq<u32> {
    Seq::new(entries.len(), |i: int| entries[i].0)
}

/// Whether a list of entries holds what a map holds, in increasing order
/// of identifier.
pub open spec fn entries_of<V>(entries: Seq<(u32, V)>, m: Map<u32, V>) -> bool {
    &&& increasing(entry_keys(entries))
    &&& entries.len() == m.len()
    &&& forall|i: int|
        0 <= i < entries.len() ==> m.contains_key((#[trigger] entries[i]).0) && m[entries[i].0]
            == entries[i].1
    &&& forall|k: u32|
        m.contains_key(k) ==> exists|i: int| 0 <= i < entries.len() && (#[trigger] entries[i]).0 == k
}

/// Whether a list of identifiers holds what a set holds, in increasing order.
pub open spec fn elements_of(elements: Seq<u32>, s: Set<u32>) -> bool {
    &&& increasing(elements)
    &&& elements.len() == s.len()
    &&& elements.to_set() == s
}

/// The members of a set, smallest first.
pub open spec fn sorted_elements(s: Set<u32>) -> Seq<u32> {
    choose|q: Seq<u32>| elements_of(q, s)
}

/// The entries of a map, smallest identifier first.
pub open spec fn sorted_entries<V>(m: Map<u32, V>) -> Seq<(u32, V)> {
    choose|q: Seq<(u32, V)>| entries_of(q, m)
}

/// In a list that goes strictly upwards, the identifiers lie at least as
/// far apart as their places.
pub proof fn lemma_increasing_gap(a: Seq<u32>, i: int, j: int)
    requires
        increasing(a),
        0 <= i <= j < a.len(),
    ensures
        a[j] - a[i] >= j - i,
    decreases j - i,
{
    if i < j {
        lemma_increasing_gap(a, i, j - 1);
        assert(a[j - 1] < a[j]);
    }
}

/// Whether a set of identifiers is `0, 1, .., n - 1` for some `n` above
/// zero.
pub open spec fn is_initial_range(ids: Set<u32>) -> bool {
    &&& ids.finite()
    &&& ids.len() > 0
    &&& forall|k: u32| ids.contains(k) <==> k < ids.len()
}

/// A set held by a list in increasing order is `0, 1, .., n - 1` exactly
/// where the list is not empty and ends with one less than its length.
pub proof fn lemma_initial_range(items: Seq<u32>, ids: Set<u32>)
    requires
        elements_of(items, ids),
    ensures
        is_initial_range(ids) <==> (items.len() > 0 && items.last() == items.len() - 1),
        items.len() > 0 && items.last() == items.len() - 1 ==> forall|i: int|
            0 <= i < items.len() ==> #[trigger] items[i] == i,
{
    let n = items.len() as int;
    if n > 0 && items.last() == n - 1 {
        assert forall|i: int| 0 <= i < n implies #[trigger] items[i] == i by {
            lemma_increasing_gap(items, 0, i);
            lemma_increasing_gap(items, i, n - 1);
        }
        assert forall|k: u32| ids.contains(k) <==> k < ids.len() by {
            if ids.contains(k) {
                let p = choose|p: int| 0 <= p < items.len() && items[p] == k;
                assert(items[p] == p);
            }
            if k < ids.len() {
                assert(items[k as int] == k);
                assert(items.to_set().contains(k));
            }
        }
    }
    if is_initial_range(ids) {
        lemma_increasing_gap(items, 0, n - 1);
        let top = (n - 1) as u32;
        assert(ids.contains(top));
        assert(items.to_set().contains(top));
        let p = choose|p: int| 0 <= p < items.len() && items[p] == top;
        let last = items[n - 1];
        assert(items.to_set().contains(last));
        assert(ids.contains(last));
        assert(last < n);
        if p < n - 1 {
            assert(items[p] < items[n - 1]);
        }
        assert(items.last() == n - 1);
    }
}

/// A list that goes strictly upwards names nothing twice.
pub proof fn lemma_increasing_no_duplicates(a: Seq<u32>)
    requires
        increasing(a),
    ensures
        a.no_duplicates(),
{
    assert forall|i: int, j: int| 0 <= i < a.len() && 0 <= j < a.len() && i != j implies a[i]
        != a[j] by {
        if i < j {
            assert(a[i] < a[j]);
        } else {
            assert(a[j] < a[i]);
        }
    }
}

/// Two lists that go strictly upwards and name the same identifiers are
/// the same list.
pub proof fn lemma_increasing_unique(a: Seq<u32>, b: Seq<u32>)
    requires
        increasing(a),
        increasing(b),
        a.to_set() == b.to_set(),
    ensures
        a == b,
    decreases a.len(),
{
    lemma_increasing_no_duplicates(a);
    lemma_increasing_no_duplicates(b);
    a.unique_seq_to_set();
    b.unique_seq_to_set();
    if a.len() > 0 {
        let x = a.last();
        let y = b.last();
        assert(a.to_set().contains(x)) by {
            assert(a[a.len() - 1] == x);
        }
        assert(b.to_set().contains(y)) by {
            assert(b[b.len() - 1] == y);
        }
        let i = choose|i: int| 0 <= i < b.len() && b[i] == x;
        let j = choose|j: int| 0 <= j < a.len() && a[j] == y;
        assert(x <= y) by {
            if i < b.len() - 1 {
                assert(b[i] < b[b.len() - 1]);
            }
        }
        assert(y <= x) by {
            if j < a.len() - 1 {
                assert(a[j] < a[a.len() - 1]);
            }
        }
        let a1 = a.drop_last();
        let b1 = b.drop_last();
        assert forall|k: u32| a1.to_set().contains(k) <==> b1.to_set().contains(k) by {
            if a1.to_set().contains(k) {
                let p = choose|p: int| 0 <= p < a1.len() && a1[p] == k;
                assert(a[p] == k);
                assert(a[p] < a[a.len() - 1]);
                assert(b.to_set().contains(k));
                let q = choose|q: int| 0 <= q < b.len() && b[q] == k;
                assert(q < b.len() - 1);
                assert(b1[q] == k);
            }
            if b1.to_set().contains(k) {
                let p = choose|p: int| 0 <= p < b1.len() && b1[p] == k;
                assert(b[p] == k);
                assert(b[p] < b[b.len() - 1]);
                assert(a.to_set().contains(k));
                let q = choose|q: int| 0 <= q < a.len() && a[q] == k;
                assert(q < a.len() - 1);
                assert(a1[q] == k);
            }
        }
        assert(a1.to_set() =~= b1.to_set());
        lemma_increasing_unique(a1, b1);
        assert(a =~= a1.push(x));
        assert(b =~= b1.push(y));
    } else {
        assert(a =~= b);
    }
}

/// A list that holds a set in increasing order is the list of its sorted
/// members.
pub proof fn lemma_sorted_elements(q: Seq<u32>, s: Set<u32>)
    requires
        elements_of(q, s),
    ensures
        sorted_elements(s) == q,
{
    lemma_increasing_unique(sorted_elements(s), q);
}

/// A list that holds a map in increasing order of identifier is the list
/// of its sorted entries.
pub proof fn lemma_sorted_entries<V>(q: Seq<(u32, V)>, m: Map<u32, V>)
    requires
        entries_of(q, m),
    ensures
        sorted_entries(m) == q,
{
    let other = sorted_entries(m);
    assert(entry_keys(q).to_set() =~= entry_keys(other).to_set()) by {
        assert forall|k: u32| entry_keys(q).to_set().contains(k) <==> entry_keys(
            other,
        ).to_set().contains(k) by {
            if entry_keys(q).to_set().contains(k) {
                let i = choose|i: int| 0 <= i < q.len() && entry_keys(q)[i] == k;
                assert(m.contains_key(q[i].0));
                let j = choose|j: int| 0 <= j < other.len() && (#[trigger] other[j]).0 == k;
                assert(entry_keys(other)[j] == k);
            }
            if entry_keys(other).to_set().contains(k) {
                let i = choose|i: int| 0 <= i < other.len() && entry_keys(other)[i] == k;
                assert(m.contains_key(other[i].0));
                let j = choose|j: int| 0 <= j < q.len() && (#[trigger] q[j]).0 == k;
                assert(entry_keys(q)[j] == k);
            }
        }
    }
    lemma_increasing_unique(entry_keys(q), entry_keys(other));
    assert forall|i: int| 0 <= i < q.len() implies q[i] == other[i] by {
        assert(entry_keys(q)[i] == entry_keys(other)[i]);
        assert(m[q[i].0] == q[i].1);
        assert(m[other[i].0] == other[i].1);
    }
    assert(q =~= other);
}

/// The identifiers of a list that holds a map are the identifiers that
/// have a value in the map.
pub proof fn lemma_entry_keys<V>(entries: Seq<(u32, V)>, m: Map<u32, V>)
    requires
        forall|i: int| 0 <= i < entries.len() ==> m.contains_key((#[trigger] entries[i]).0),
        forall|k: u32|
            m.contains_key(k) ==> exists|i: int|
                0 <= i < entries.len() && (#[trigger] entries[i]).0 == k,
    ensures
        entry_keys(entries).to_set() == m.dom(),
{
    assert forall|k: u32| entry_keys(entries).to_set().contains(k) <==> m.dom().contains(k) by {
        if entry_keys(entries).to_set().contains(k) {
            let i = choose|i: int| 0 <= i < entries.len() && entry_keys(entries)[i] == k;
            assert(m.contains_key(entries[i].0));
        }
        if m.contains_key(k) {
            let i = choose|i: int| 0 <= i < entries.len() && (#[trigger] entries[i]).0 == k;
            assert(entry_keys(entries)[i] == k);
        }
    }
    assert(entry_keys(entries).to_set() =~= m.dom());
}

/// The members of a set, smallest first.
pub fn set_elements(s: &BTreeSet<u32>) -> (r: Vec<u32>)
    ensures
        elements_of(r@, s@),
        r@ == sorted_elements(s@),
{
    let mut r: Vec<u32> = Vec::new();
    let ghost seen = s.iter().remaining();
    for x in it: s.iter()
        invariant
            it.seq() == seen,
            r@ == seen.unref().take(it.index()),
    {
        r.push(*x);
    }
    proof {
        assert(r@ == seen.unref());
        assert(vstd::std_specs::btree::increasing_seq(seen));
        assert(vstd::laws_cmp::obeys_cmp::<u32>());
        assert(vstd::laws_cmp::obeys_cmp::<&u32>());
        vstd::std_specs::btree::axiom_increasing_seq_meaning::<&u32>(seen);
        assert forall|i: int, j: int| 0 <= i < j < r@.len() implies r@[i] < r@[j] by {
            assert((&seen[i]).cmp_spec(&seen[j]) is Less);
        }
        lemma_sorted_elements(r@, s@);
    }
    r
}

/// The entries of a map, smallest identifier first.
pub fn map_entries<V: Copy>(m: &BTreeMap<u32, V>) -> (r: Vec<(u32, V)>)
    ensures
        entries_of(r@, m@),
        r@ == sorted_entries(m@),
{
    let mut r: Vec<(u32, V)> = Vec::new();
    let ghost seen = m.iter().remaining();
    for x in it: m.iter()
        invariant
            it.seq() == seen,
            r@.len() == it.index(),
            forall|i: int|
                0 <= i < r@.len() ==> r@[i].0 == *seen[i].0 && r@[i].1 == *seen[i].1,
    {
        r.push((*x.0, *x.1));
    }
    proof {
        assert forall|i: int| 0 <= i < r@.len() implies m@.contains_key((#[trigger] r@[i]).0)
            && m@[r@[i].0] == r@[i].1 by {
            assert(m@.contains_key(*seen[i].0));
        }
        let keys = seen.map_values(|kv: (&u32, &V)| *kv.0);
        assert(vstd::std_specs::btree::increasing_seq(keys));
        assert(vstd::laws_cmp::obeys_cmp::<u32>());
        vstd::std_specs::btree::axiom_increasing_seq_meaning::<u32>(keys);
        assert forall|i: int, j: int| 0 <= i < j < r@.len() implies entry_keys(r@)[i]
            < entry_keys(r@)[j] by {
            assert(keys[i].cmp_spec(&keys[j]) is Less);
        }
        assert forall|k: u32| m@.contains_key(k) implies exists|i: int|
            0 <= i < r@.len() && (#[trigger] r@[i]).0 == k by {
            assert(seen.contains((&k, &m@[k])));
            let i = choose|i: int| 0 <= i < seen.len() && seen[i] == (&k, &m@[k]);
            assert(r@[i].0 == k);
        }
        lemma_sorted_entries(r@, m@);
    }
    r
}

} // verus!
