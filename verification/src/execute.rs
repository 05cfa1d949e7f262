use crate::Error;
use crate::ExecutionResult;
use crate::acir::ExpressionView;
use crate::acir::acvm_solve;
use crate::acir::expression_view;
use crate::acir::expression_views;
use crate::acir::solver_outcome;
use crate::acir::witness_map_entries;
use crate::acir::witness_map_insert;
use crate::acir::witness_map_into_entries;
use crate::acir::witness_map_new;
use crate::expansion::expansion;
use crate::field::AcirFieldElement;
use crate::field::FieldElement;
use crate::field::ff_to_ark_prime_field;
use crate::field::generic_ark_ff_to_prime_field;
use crate::gate::AcirArithGate;
use crate::gate::GateView;
use crate::gate::gates_view;
use crate::gate::to_expression_view;
use crate::input::feed_forward;
use crate::ivc::ProgramError;
use crate::ordered::entries_of;
use crate::ordered::entry_keys;
use crate::ordered::lemma_entry_keys;
use crate::ordered::map_entries;
use crate::program::CircuitStructure;
use crate::sets::lemma_prefix_set_full;
use crate::sets::lemma_prefix_set_step;
use crate::sets::prefix_set;
use crate::witness::Witness;
use crate::witness::WitnessID;
use crate::witness::first_missing;
use acvm::acir::native_types::Expression;
use acvm::acir::native_types::WitnessMap;
use vstd::prelude::*;

verus! {

/// A circuit that waits for the private input of its next step.
#[derive(Debug, PartialEq, Eq)]
pub struct UnexecutedCircuit {
    pub iteration_number: u64,
    pub public_input: Witness,
    pub structure: CircuitStructure,
}

impl Clone for UnexecutedCircuit {
    fn clone(&self) -> (r: Self)
        ensures
            r.iteration_number == self.iteration_number,
            r.public_input@ == self.public_input@,
            r.structure@ == self.structure@,
    {
        UnexecutedCircuit {
            iteration_number: self.iteration_number,
            public_input: self.public_input.clone(),
            structure: self.structure.clone(),
        }
    }
}

/// What a step gives back: its result, its expanded witness, and the
/// circuit as it waits for the step after.
pub type Executed = (ExecutionResult, Witness, UnexecutedCircuit);

/// An assignment with each value in the solver's encoding.
pub open spec fn acir_assignment(w: Map<WitnessID, FieldElement>) -> Map<
    WitnessID,
    AcirFieldElement,
> {
    Map::new(|k: WitnessID| w.contains_key(k), |k: WitnessID| w[k].to_acir_spec())
}

/// An assignment with each value in the constraint system's encoding.
pub open spec fn field_assignment(w: Map<WitnessID, AcirFieldElement>) -> Map<
    WitnessID,
    FieldElement,
> {
    Map::new(|k: WitnessID| w.contains_key(k), |k: WitnessID| w[k].to_field_spec())
}

/// The expressions that the solver gets for a list of gates.
pub open spec fn gate_expressions(gates: Seq<GateView>) -> Seq<ExpressionView> {
    Seq::new(gates.len(), |i: int| to_expression_view(gates[i]))
}

/// Whether `r` fails because `id`, the smallest member of `ids` without a
/// value in `solved`, is missing.
pub open spec fn fails_for_missing(
    ids: Set<WitnessID>,
    solved: Map<WitnessID, FieldElement>,
    r: Result<Executed, Error>,
) -> bool {
    match r {
        Err(Error::IVCProgramError(ProgramError::MissingWitness(id))) => first_missing(
            ids,
            solved,
            id,
        ),
        _ => false,
    }
}

/// Whether `r` is what a step ends with once the solver has given the
/// assignment `solved`. The four parts of the IO profile are taken out of
/// `solved`, in the order public inputs, private inputs, public outputs,
/// private outputs, and the first identifier without a value fails the
/// step; then the gates are expanded over `solved`; and the circuit that
/// waits for the next step has the next iteration number and, as public
/// input, the public output fed forward.
pub open spec fn completes(
    state: UnexecutedCircuit,
    solved: Map<WitnessID, FieldElement>,
    r: Result<Executed, Error>,
) -> bool {
    let io = state.structure.program.io@;
    if !io.public_inputs.subset_of(solved.dom()) {
        fails_for_missing(io.public_inputs, solved, r)
    } else if !io.private_inputs.subset_of(solved.dom()) {
        fails_for_missing(io.private_inputs, solved, r)
    } else if !io.public_outputs.subset_of(solved.dom()) {
        fails_for_missing(io.public_outputs, solved, r)
    } else if !io.private_outputs.subset_of(solved.dom()) {
        fails_for_missing(io.private_outputs, solved, r)
    } else {
        match expansion(state.structure.gates_view(), solved) {
            Err(pe) => r == Err::<Executed, Error>(Error::IVCProgramError(pe)),
            Ok(e) => match r {
                Ok((result, witness, next)) => {
                    &&& result.iteration_number == state.iteration_number
                    &&& result.public_input@ == solved.restrict(io.public_inputs)
                    &&& result.private_input@ == solved.restrict(io.private_inputs)
                    &&& result.public_output@ == solved.restrict(io.public_outputs)
                    &&& result.private_output@ == solved.restrict(io.private_outputs)
                    &&& witness@ == e.assignment
                    &&& witness.wf()
                    &&& next.iteration_number == state.iteration_number + 1
                    &&& next.public_input@ == feed_forward(
                        solved.restrict(io.public_outputs),
                        io.public_inputs,
                    )
                    &&& next.public_input.wf()
                    &&& next.structure@ == state.structure@
                },
                Err(_) => false,
            },
        }
    }
}

/// Whether `r` is what a step from `state` with the private input
/// `private_input` gives. Where neither the identifiers of the public
/// input are the public inputs of the circuit nor those of the private
/// input its private inputs, the step fails with `InvalidInput`. Else the
/// two are merged, the solver is run on the gates from the merged
/// assignment, and the step ends with what the solver has solved for, or
/// fails with the status at which the solver stopped.
pub open spec fn executes(
    state: UnexecutedCircuit,
    private_input: Map<WitnessID, FieldElement>,
    r: Result<Executed, Error>,
) -> bool {
    if state.public_input@.dom() == state.structure.program.io@.public_inputs
        || private_input.dom() == state.structure.program.io@.private_inputs {
        match solver_outcome(
            gate_expressions(state.structure.gates_view()),
            acir_assignment(state.public_input@.union_prefer_right(private_input)),
        ) {
            Ok(solved) => completes(state, field_assignment(solved), r),
            Err(status) => match r {
                Err(Error::ACVMSolveError(text)) => text@ == status,
                _ => false,
            },
        }
    } else {
        r == Err::<Executed, Error>(Error::InvalidInput)
    }
}

/// The entries of `a` and those of `b`; where both have a value for an
/// identifier, that of `b`.
pub fn merge(a: &Witness, b: &Witness) -> (r: Witness)
    ensures
        r@ == a@.union_prefer_right(b@),
        a.wf() && b.wf() ==> r.wf(),
{
    let mut r = a.clone();
    let entries = map_entries(&b.0);
    let ghost keys = entry_keys(entries@);
    let mut i: usize = 0;
    proof {
        assert(prefix_set(keys, 0) =~= Set::<WitnessID>::empty());
        assert(r@ =~= a@.union_prefer_right(b@.restrict(prefix_set(keys, 0))));
    }
    while i < entries.len()
        invariant
            i <= entries.len(),
            entries_of(entries@, b@),
            keys == entry_keys(entries@),
            r@ == a@.union_prefer_right(b@.restrict(prefix_set(keys, i as int))),
        decreases entries.len() - i,
    {
        proof {
            lemma_prefix_set_step(keys, i as int);
            assert(b@.contains_key(entries@[i as int].0));
        }
        r.insert(entries[i].0, entries[i].1);
        i += 1;
        assert(r@ =~= a@.union_prefer_right(b@.restrict(prefix_set(keys, i as int))));
    }
    proof {
        lemma_prefix_set_full(keys);
        lemma_entry_keys(entries@, b@);
        assert(b@.restrict(b@.dom()) =~= b@);
    }
    r
}

/// The solver's witness map with the entries of a witness, each value
/// carried to the solver's encoding.
fn to_witness_map(witness: &Witness) -> (r: Result<WitnessMap, Error>)
    requires
        witness.wf(),
    ensures
        r matches Ok(m) && witness_map_entries(m) == acir_assignment(witness@),
{
    let entries = map_entries(&witness.0);
    let ghost keys = entry_keys(entries@);
    let mut m = witness_map_new();
    let mut i: usize = 0;
    proof {
        assert(prefix_set(keys, 0) =~= Set::<WitnessID>::empty());
        assert(witness_map_entries(m) =~= acir_assignment(witness@.restrict(prefix_set(keys, 0))));
    }
    while i < entries.len()
        invariant
            i <= entries.len(),
            witness.wf(),
            entries_of(entries@, witness@),
            keys == entry_keys(entries@),
            witness_map_entries(m) == acir_assignment(
                witness@.restrict(prefix_set(keys, i as int)),
            ),
        decreases entries.len() - i,
    {
        proof {
            lemma_prefix_set_step(keys, i as int);
            assert(witness@.contains_key(entries@[i as int].0));
        }
        let value = match ff_to_ark_prime_field(&entries[i].1) {
            Ok(v) => v,
            Err(e) => {
                return Err(e);
            },
        };
        witness_map_insert(&mut m, entries[i].0, &value);
        i += 1;
        assert(witness_map_entries(m) =~= acir_assignment(
            witness@.restrict(prefix_set(keys, i as int)),
        ));
    }
    proof {
        lemma_entry_keys(entries@, witness@);
        lemma_prefix_set_full(keys);
        assert(witness@.restrict(witness@.dom()) =~= witness@);
    }
    Ok(m)
}

/// The witness with the entries of a solver's witness map, each value
/// carried to the constraint system's encoding.
fn from_witness_map(m: WitnessMap) -> (r: Result<Witness, Error>)
    ensures
        r matches Ok(w) && w.wf() && w@ == field_assignment(witness_map_entries(m)),
{
    let ghost source = witness_map_entries(m);
    let entries = witness_map_into_entries(m);
    let ghost keys = Seq::new(entries@.len(), |i: int| entries@[i].0);
    let mut w = Witness::new();
    let mut i: usize = 0;
    proof {
        assert(prefix_set(keys, 0) =~= Set::<WitnessID>::empty());
        assert(w@ =~= field_assignment(source.restrict(prefix_set(keys, 0))));
    }
    while i < entries.len()
        invariant
            i <= entries.len(),
            keys == Seq::new(entries@.len(), |i: int| entries@[i].0),
            forall|j: int|
                0 <= j < entries@.len() ==> source.contains_key((#[trigger] entries@[j]).0)
                    && source[entries@[j].0] == entries@[j].1 && entries@[j].1.wf(),
            w.wf(),
            w@ == field_assignment(source.restrict(prefix_set(keys, i as int))),
        decreases entries.len() - i,
    {
        proof {
            lemma_prefix_set_step(keys, i as int);
            assert(source.contains_key(entries@[i as int].0));
        }
        let value = match generic_ark_ff_to_prime_field(&entries[i].1) {
            Ok(v) => v,
            Err(e) => {
                return Err(e);
            },
        };
        w.insert(entries[i].0, value);
        i += 1;
        assert(w@ =~= field_assignment(source.restrict(prefix_set(keys, i as int))));
    }
    proof {
        lemma_entry_keys(entries@, source);
        assert(keys =~= entry_keys(entries@));
        lemma_prefix_set_full(keys);
        assert(source.restrict(source.dom()) =~= source);
    }
    Ok(w)
}

/// The expressions that the solver gets for a list of gates.
fn gates_to_expressions(gates: &Vec<AcirArithGate>) -> (r: Result<Vec<Expression>, Error>)
    requires
        forall|i: int| 0 <= i < gates@.len() ==> (#[trigger] gates@[i])@.wf(),
    ensures
        r matches Ok(es) && expression_views(es@) == gate_expressions(gates_view(gates@)),
{
    let mut es: Vec<Expression> = Vec::new();
    let mut i: usize = 0;
    while i < gates.len()
        invariant
            i <= gates.len(),
            forall|i: int| 0 <= i < gates@.len() ==> (#[trigger] gates@[i])@.wf(),
            expression_views(es@) == gate_expressions(gates_view(gates@)).take(i as int),
        decreases gates.len() - i,
    {
        let ghost before = expression_views(es@);
        assert(gates@[i as int]@.wf());
        let e = match gates[i].to_expression() {
            Ok(e) => e,
            Err(e) => {
                return Err(e);
            },
        };
        es.push(e);
        i += 1;
        proof {
            assert(expression_views(es@) =~= before.push(expression_view(e)));
            assert(gate_expressions(gates_view(gates@)).take(i as int) =~= before.push(
                expression_view(e),
            ));
        }
    }
    proof {
        let all = gate_expressions(gates_view(gates@));
        assert(all.take(i as int) =~= all);
    }
    Ok(es)
}

impl UnexecutedCircuit {
    /// Whether the values that the circuit holds are reduced residues.
    pub open spec fn wf(self) -> bool {
        &&& self.public_input.wf()
        &&& forall|i: int|
            0 <= i < self.structure.gates@.len() ==> (#[trigger] self.structure.gates@[i])@.wf()
    }

    /// The circuit before step `iteration_number`, with the public input of
    /// that step.
    pub fn new(
        iteration_number: u64,
        init_public_input: Witness,
        structure: CircuitStructure,
    ) -> (r: UnexecutedCircuit)
        ensures
            r.iteration_number == iteration_number,
            r.public_input == init_public_input,
            r.structure == structure,
    {
        UnexecutedCircuit { iteration_number, public_input: init_public_input, structure }
    }

    /// Ends a step whose solved witness is `solved_witness`: takes the four
    /// parts of the IO profile out of it, expands the gates over it, and
    /// feeds the public output forward into the public input of the next
    /// step.
    pub fn complete(self, solved_witness: &Witness) -> (r: Result<Executed, Error>)
        requires
            solved_witness.wf(),
            self.iteration_number < u64::MAX,
        ensures
            completes(self, solved_witness@, r),
    {
        let public_input = match solved_witness.extract_subset(
            &self.structure.program.io.public_inputs,
        ) {
            Ok(w) => w,
            Err(e) => {
                return Err(Error::IVCProgramError(e));
            },
        };
        let private_input = match solved_witness.extract_subset(
            &self.structure.program.io.private_inputs,
        ) {
            Ok(w) => w,
            Err(e) => {
                return Err(Error::IVCProgramError(e));
            },
        };
        let public_output = match solved_witness.extract_subset(
            &self.structure.program.io.public_outputs,
        ) {
            Ok(w) => w,
            Err(e) => {
                return Err(Error::IVCProgramError(e));
            },
        };
        let private_output = match solved_witness.extract_subset(
            &self.structure.program.io.private_outputs,
        ) {
            Ok(w) => w,
            Err(e) => {
                return Err(Error::IVCProgramError(e));
            },
        };
        let step = match self.structure.make_step(solved_witness) {
            Ok(step) => step,
            Err(e) => {
                return Err(e);
            },
        };
        let new_public_input = public_output.make_next_input_witness(&self.structure.program.io);
        let result = ExecutionResult {
            iteration_number: self.iteration_number,
            public_input,
            private_input,
            public_output,
            private_output,
        };
        let next = UnexecutedCircuit {
            iteration_number: self.iteration_number + 1,
            public_input: new_public_input,
            structure: self.structure,
        };
        Ok((result, step.witness, next))
    }

    /// Runs one step of the chain. The public input that the circuit holds
    /// and the private input are checked against the IO profile and merged;
    /// the solver is run on the gates from the merged assignment; and the
    /// step is ended with what the solver has solved for. Fails with
    /// `InvalidInput` where the inputs do not fit, and with
    /// `ACVMSolveError` and the solver's status where the solver stops
    /// without a solution.
    pub fn execute(self, private_input: Witness) -> (r: Result<Executed, Error>)
        requires
            self.wf(),
            private_input.wf(),
            self.iteration_number < u64::MAX,
        ensures
            executes(self, private_input@, r),
    {
        if !self.structure.is_valid_input(&self.public_input, &private_input) {
            return Err(Error::InvalidInput);
        }
        let assigned_witness = merge(&self.public_input, &private_input);
        let initial_witness = match to_witness_map(&assigned_witness) {
            Ok(m) => m,
            Err(e) => {
                return Err(e);
            },
        };
        let opcodes = match gates_to_expressions(&self.structure.gates) {
            Ok(es) => es,
            Err(e) => {
                return Err(e);
            },
        };
        let solved = match acvm_solve(&opcodes, initial_witness) {
            Ok(m) => m,
            Err(status) => {
                return Err(Error::ACVMSolveError(status));
            },
        };
        let solved_witness = match from_witness_map(solved) {
            Ok(w) => w,
            Err(e) => {
                return Err(e);
            },
        };
        self.complete(&solved_witness)
    }
}

} // verus!
