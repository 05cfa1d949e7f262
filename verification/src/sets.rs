use crate::ordered::set_elements;
use std::collections::BTreeMap;
use std::collections::BTreeSet;
use vstd::prelude::*;
use vstd::set_lib::lemma_subset_equality;

verus! {

/// The members of the first `i` places of a list, as a set.
pub open spec fn prefix_set(items: Seq<u32>, i: int) -> Set<u32> {
    items.take(i).to_set()
}

/// One more place of a list adds its member to the set of the places
/// before it.
pub proof fn lemma_prefix_set_step(items: Seq<u32>, i: int)
    requires
        0 <= i < items.len(),
    ensures
        prefix_set(items, i + 1) == prefix_set(items, i).insert(items[i]),
        prefix_set(items, 0) == Set::<u32>::empty(),
        prefix_set(items, items.len() as int) == items.to_set(),
{
    assert(items.take(i + 1) =~= items.take(i).push(items[i]));
    items.take(i).lemma_push_to_set_commute(items[i]);
    assert(items.take(0).to_set() =~= Set::<u32>::empty());
    assert(items.take(items.len() as int) =~= items);
}

/// All places of a list give all its members.
pub proof fn lemma_prefix_set_full(items: Seq<u32>)
    ensures
        prefix_set(items, items.len() as int) == items.to_set(),
{
    assert(items.take(items.len() as int) =~= items);
}

/// The members of `a` that are not in `b`.
pub fn set_difference(a: &BTreeSet<u32>, b: &BTreeSet<u32>) -> (r: BTreeSet<u32>)
    ensures
        r@ == a@.difference(b@),
{
    let items = set_elements(a);
    let mut r: BTreeSet<u32> = BTreeSet::new();
    let mut i: usize = 0;
    proof {
        assert(prefix_set(items@, 0) =~= Set::<u32>::empty());
    }
    while i < items.len()
        invariant
            i <= items.len(),
            r@ == prefix_set(items@, i as int).difference(b@),
        decreases items.len() - i,
    {
        proof {
            lemma_prefix_set_step(items@, i as int);
        }
        if !b.contains(&items[i]) {
            r.insert(items[i]);
        }
        i += 1;
        assert(r@ =~= prefix_set(items@, i as int).difference(b@));
    }
    proof {
        assert(items@.take(items.len() as int) =~= items@);
    }
    r
}

/// The members of `a` together with those of `b`.
pub fn set_union(a: &BTreeSet<u32>, b: &BTreeSet<u32>) -> (r: BTreeSet<u32>)
    ensures
        r@ == a@.union(b@),
{
    let items = set_elements(b);
    let mut r: BTreeSet<u32> = a.clone();
    let mut i: usize = 0;
    proof {
        assert(prefix_set(items@, 0) =~= Set::<u32>::empty());
        assert(r@ =~= a@.union(prefix_set(items@, 0)));
    }
    while i < items.len()
        invariant
            i <= items.len(),
            r@ == a@.union(prefix_set(items@, i as int)),
        decreases items.len() - i,
    {
        proof {
            lemma_prefix_set_step(items@, i as int);
        }
        r.insert(items[i]);
        i += 1;
        assert(r@ =~= a@.union(prefix_set(items@, i as int)));
    }
    proof {
        assert(items@.take(items.len() as int) =~= items@);
    }
    r
}

/// Whether every member of `a` is a member of `b`.
pub fn set_is_subset(a: &BTreeSet<u32>, b: &BTreeSet<u32>) -> (r: bool)
    ensures
        r == a@.subset_of(b@),
{
    let items = set_elements(a);
    let mut i: usize = 0;
    proof {
        assert(prefix_set(items@, 0) =~= Set::<u32>::empty());
    }
    while i < items.len()
        invariant
            i <= items.len(),
            items@.to_set() == a@,
            prefix_set(items@, i as int).subset_of(b@),
        decreases items.len() - i,
    {
        proof {
            lemma_prefix_set_step(items@, i as int);
        }
        if !b.contains(&items[i]) {
            proof {
                assert(items@.to_set().contains(items@[i as int]));
            }
            return false;
        }
        i += 1;
    }
    proof {
        assert(items@.take(items.len() as int) =~= items@);
    }
    true
}

/// Whether the identifiers that have a value in `m` are the members of `s`.
pub fn keys_are<V>(m: &BTreeMap<u32, V>, s: &BTreeSet<u32>) -> (r: bool)
    ensures
        r == (m@.dom() == s@),
{
    let items = set_elements(s);
    if m.len() != items.len() {
        return false;
    }
    let mut i: usize = 0;
    proof {
        assert(prefix_set(items@, 0) =~= Set::<u32>::empty());
    }
    while i < items.len()
        invariant
            i <= items.len(),
            items@.to_set() == s@,
            prefix_set(items@, i as int).subset_of(m@.dom()),
        decreases items.len() - i,
    {
        proof {
            lemma_prefix_set_step(items@, i as int);
        }
        if !m.contains_key(&items[i]) {
            proof {
                assert(items@.to_set().contains(items@[i as int]));
            }
            return false;
        }
        i += 1;
    }
    proof {
        assert(items@.take(items.len() as int) =~= items@);
        lemma_subset_equality(s@, m@.dom());
    }
    true
}

} // verus!
