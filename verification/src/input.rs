use crate::field::FieldElement;
use crate::ivc::IOProfile;
use crate::ordered::map_entries;
use crate::ordered::set_elements;
use crate::ordered::sorted_elements;
use crate::ordered::sorted_entries;
use crate::witness::Witness;
use crate::witness::WitnessID;
use vstd::prelude::*;

verus! {

/// The values that go into a step or come out of it, in the order of their
/// identifiers.
#[derive(Debug, PartialEq, Eq)]
pub struct IO(pub Vec<FieldElement>);

impl View for IO {
    type V = Seq<FieldElement>;

    open spec fn view(&self) -> Seq<FieldElement> {
        self.0@
    }
}

/// The values of a list of entries, in order.
pub open spec fn entry_values(entries: Seq<(WitnessID, FieldElement)>) -> Seq<FieldElement> {
    Seq::new(entries.len(), |i: int| entries[i].1)
}

/// The assignment that gives the first `n` of `ids` the first `n` of
/// `values`, one for one.
pub open spec fn assign(ids: Seq<WitnessID>, values: Seq<FieldElement>, n: nat) -> Map<
    WitnessID,
    FieldElement,
>
    decreases n,
{
    if n == 0 {
        Map::empty()
    } else {
        assign(ids, values, (n - 1) as nat).insert(ids[n - 1], values[n - 1])
    }
}

/// Where no identifier comes twice, `assign` gives the identifier at each
/// place below `n` the value at that place, and no other identifier a
/// value.
pub proof fn lemma_assign(ids: Seq<WitnessID>, values: Seq<FieldElement>, n: nat)
    requires
        n <= ids.len(),
        n <= values.len(),
        ids.no_duplicates(),
    ensures
        forall|k: int| 0 <= k < n ==> assign(ids, values, n).contains_key(#[trigger] ids[k])
            && assign(ids, values, n)[ids[k]] == values[k],
        forall|id: WitnessID|
            assign(ids, values, n).contains_key(id) ==> exists|k: int|
                0 <= k < n && #[trigger] ids[k] == id,
    decreases n,
{
    if n > 0 {
        lemma_assign(ids, values, (n - 1) as nat);
        let before = assign(ids, values, (n - 1) as nat);
        assert forall|k: int| 0 <= k < n implies assign(ids, values, n).contains_key(
            #[trigger] ids[k],
        ) && assign(ids, values, n)[ids[k]] == values[k] by {
            if k < n - 1 {
                assert(before.contains_key(ids[k]));
                assert(ids[k] != ids[n - 1]);
            }
        }
        assert forall|id: WitnessID| assign(ids, values, n).contains_key(id) implies exists|k: int|
            0 <= k < n && #[trigger] ids[k] == id by {
            if id == ids[n - 1] {
                assert(ids[n - 1] == id);
            } else {
                assert(before.contains_key(id));
                let k = choose|k: int| 0 <= k < n - 1 && #[trigger] ids[k] == id;
                assert(ids[k] == id);
            }
        }
    }
}

/// The smaller of two lengths.
pub open spec fn shorter(a: nat, b: nat) -> nat {
    if a <= b {
        a
    } else {
        b
    }
}

/// The values of an assignment, in increasing order of identifier.
pub open spec fn values_in_order(w: Map<WitnessID, FieldElement>) -> Seq<FieldElement> {
    entry_values(sorted_entries(w))
}

/// The assignment that gives the public inputs, smallest first, the given
/// values, one for one, for as long as both last.
pub open spec fn assign_inputs(inputs: Set<WitnessID>, values: Seq<FieldElement>) -> Map<
    WitnessID,
    FieldElement,
> {
    let ids = sorted_elements(inputs);
    assign(ids, values, shorter(ids.len(), values.len()))
}

/// The public input that a public output becomes: the values of the
/// outputs, in increasing order of identifier, given to the public inputs,
/// smallest first.
pub open spec fn feed_forward(
    outputs: Map<WitnessID, FieldElement>,
    inputs: Set<WitnessID>,
) -> Map<WitnessID, FieldElement> {
    assign_inputs(inputs, values_in_order(outputs))
}

impl IO {
    /// Whether every value is a reduced residue.
    pub open spec fn wf(self) -> bool {
        forall|i: int| 0 <= i < self@.len() ==> (#[trigger] self@[i]).wf()
    }

    /// The values of a witness, in increasing order of identifier.
    pub fn from_witness(witness: &Witness) -> (r: IO)
        ensures
            r@ == values_in_order(witness@),
            witness.wf() ==> r.wf(),
    {
        let entries = map_entries(&witness.0);
        let mut values: Vec<FieldElement> = Vec::new();
        let mut i: usize = 0;
        while i < entries.len()
            invariant
                i <= entries.len(),
                crate::ordered::entries_of(entries@, witness@),
                values@ == entry_values(entries@).take(i as int),
                witness.wf() ==> forall|j: int| 0 <= j < i ==> (#[trigger] values@[j]).wf(),
            decreases entries.len() - i,
        {
            values.push(entries[i].1);
            proof {
                let all = entry_values(entries@);
                assert(all.take(i + 1) =~= all.take(i as int).push(all[i as int]));
                assert(witness@.contains_key(entries@[i as int].0));
            }
            i += 1;
        }
        proof {
            let all = entry_values(entries@);
            assert(all.take(i as int) =~= all);
        }
        IO(values)
    }

    /// The witness that gives the public inputs of `io`, smallest first,
    /// these values, one for one, for as long as both last.
    pub fn make_witness(&self, io: &IOProfile) -> (r: Witness)
        ensures
            r@ == assign_inputs(io@.public_inputs, self@),
            self.wf() ==> r.wf(),
    {
        let ids = set_elements(&io.public_inputs);
        let n = if ids.len() <= self.0.len() {
            ids.len()
        } else {
            self.0.len()
        };
        let mut r = Witness::new();
        let mut i: usize = 0;
        while i < n
            invariant
                i <= n,
                n == shorter(ids@.len(), self@.len()),
                r@ == assign(ids@, self@, i as nat),
                self.wf() ==> r.wf(),
            decreases n - i,
        {
            r.insert(ids[i], self.0[i]);
            i += 1;
        }
        r
    }
}

} // verus!
