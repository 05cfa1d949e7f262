use crate::field::FieldElement;
use crate::input::IO;
use crate::input::feed_forward;
use crate::ivc::IOProfile;
use crate::ivc::ProgramError;
use crate::ordered::set_elements;
use crate::sets::lemma_prefix_set_step;
use crate::sets::prefix_set;
use std::collections::BTreeMap;
use std::collections::BTreeSet;
use vstd::prelude::*;

verus! {

/// The index of a variable of a circuit.
pub type WitnessID = u32;

/// An assignment of field elements to witness identifiers.
#[derive(Debug, PartialEq, Eq)]
pub struct Witness(pub BTreeMap<WitnessID, FieldElement>);

impl View for Witness {
    type V = Map<WitnessID, FieldElement>;

    open spec fn view(&self) -> Map<WitnessID, FieldElement> {
        self.0@
    }
}

/// Whether every value of an assignment is a reduced residue.
pub open spec fn assignment_wf(w: Map<WitnessID, FieldElement>) -> bool {
    forall|k: WitnessID| w.contains_key(k) ==> (#[trigger] w[k]).wf()
}

/// Whether `id` is the smallest member of `ids` without a value in `w`.
pub open spec fn first_missing(
    ids: Set<WitnessID>,
    w: Map<WitnessID, FieldElement>,
    id: WitnessID,
) -> bool {
    &&& ids.contains(id)
    &&& !w.contains_key(id)
    &&& forall|j: WitnessID| ids.contains(j) && j < id ==> w.contains_key(j)
}

impl Clone for Witness {
    fn clone(&self) -> (r: Self)
        ensures
            r@ == self@,
    {
        Witness(self.0.clone())
    }
}

impl Witness {
    /// Whether every value is a reduced residue.
    pub open spec fn wf(self) -> bool {
        assignment_wf(self@)
    }

    /// The assignment without entries.
    pub fn new() -> (r: Witness)
        ensures
            r@ == Map::<WitnessID, FieldElement>::empty(),
            r.wf(),
    {
        Witness(BTreeMap::new())
    }

    /// The number of entries.
    pub fn len(&self) -> (n: usize)
        ensures
            n == self@.len(),
    {
        self.0.len()
    }

    /// The value of `id`, if it has one.
    pub fn get(&self, id: WitnessID) -> (r: Option<FieldElement>)
        ensures
            r == if self@.contains_key(id) {
                Some(self@[id])
            } else {
                None
            },
    {
        match self.0.get(&id) {
            Some(v) => Some(*v),
            None => None,
        }
    }

    /// Gives `id` the value `value`, in place of an earlier one if there was one.
    pub fn insert(&mut self, id: WitnessID, value: FieldElement)
        ensures
            final(self)@ == old(self)@.insert(id, value),
    {
        self.0.insert(id, value);
    }
    /// The entries of the identifiers in `ids`. Fails where one of them has
    /// no value, and names the smallest such.
    pub fn extract_subset(&self, ids: &BTreeSet<WitnessID>) -> (r: Result<Witness, ProgramError>)
        ensures
            match r {
                Ok(w) => ids@.subset_of(self@.dom()) && w@ == self@.restrict(ids@) && (self.wf()
                    ==> w.wf()),
                Err(e) => e matches ProgramError::MissingWitness(id) && first_missing(
                    ids@,
                    self@,
                    id,
                ),
            },
    {
        let items = set_elements(ids);
        let mut r = Witness::new();
        let mut i: usize = 0;
        proof {
            assert(prefix_set(items@, 0) =~= Set::<WitnessID>::empty());
            assert(r@ =~= self@.restrict(prefix_set(items@, 0)));
        }
        while i < items.len()
            invariant
                i <= items.len(),
                crate::ordered::elements_of(items@, ids@),
                prefix_set(items@, i as int).subset_of(self@.dom()),
                r@ == self@.restrict(prefix_set(items@, i as int)),
            decreases items.len() - i,
        {
            proof {
                lemma_prefix_set_step(items@, i as int);
            }
            match self.get(items[i]) {
                Some(v) => {
                    r.insert(items[i], v);
                },
                None => {
                    proof {
                        let id = items@[i as int];
                        assert(items@.to_set().contains(id));
                        assert forall|j: WitnessID| ids@.contains(j) && j < id implies self@.contains_key(
                            j,
                        ) by {
                            assert(items@.to_set().contains(j));
                            let p = choose|p: int| 0 <= p < items@.len() && items@[p] == j;
                            if p > i {
                                assert(items@[i as int] < items@[p]);
                            }
                            assert(items@.take(i as int)[p] == j);
                            assert(prefix_set(items@, i as int).contains(j));
                        }
                    }
                    return Err(ProgramError::MissingWitness(items[i]));
                },
            }
            i += 1;
            assert(r@ =~= self@.restrict(prefix_set(items@, i as int)));
        }
        proof {
            assert(items@.take(items.len() as int) =~= items@);
        }
        Ok(r)
    }

    /// The public input of the next step of a chain, made from the public
    /// output of this one: the value of the smallest output identifier
    /// goes to the smallest public input identifier of `io`, the next to
    /// the next, and so on for as long as both last.
    pub fn make_next_input_witness(&self, io: &IOProfile) -> (r: Witness)
        ensures
            r@ == feed_forward(self@, io@.public_inputs),
            self.wf() ==> r.wf(),
    {
        IO::from_witness(self).make_witness(io)
    }
}

} // verus!
