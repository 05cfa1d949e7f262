use crate::Error;
use crate::acir::expression_view;
use crate::constants::CURVE_BN254;
use crate::expansion::Expansion;
use crate::expansion::bilinear_constraint;
use crate::expansion::closing_constraint;
use crate::expansion::expand_gate;
use crate::expansion::expand_gates;
use crate::expansion::expand_mul_terms;
use crate::expansion::expansion;
use crate::expansion::expansion_start;
use crate::expansion::gate_combination;
use crate::expansion::lemma_gates_error_persists;
use crate::expansion::lemma_mul_terms_error_persists;
use crate::field::FieldElement;
use crate::gate::AcirArithGate;
use crate::gate::GateView;
use crate::gate::Opcode;
use crate::gate::add_term_ids;
use crate::gate::gates_ids;
use crate::gate::gates_view;
use crate::gate::lemma_add_term_ids_step;
use crate::gate::lemma_gates_ids_step;
use crate::gate::lemma_mul_term_ids_step;
use crate::gate::linear_terms;
use crate::gate::mul_term_ids;
use crate::gate::to_gate_view;
use crate::ivc::IOProfile;
use crate::ivc::IVCProgram;
use crate::ivc::IVCProgramView;
use crate::ivc::MalformedProgramError;
use crate::ivc::ProgramError;
use crate::ivc::Step;
use crate::ivc::VERSION_0_1;
use crate::ivc::extract_io_spec;
use crate::load::Circuit;
use crate::load::UnsupportedProgramError;
use crate::load::refuses_opcode;
use crate::load::supported_before;
use crate::ordered::is_initial_range;
use crate::ordered::lemma_initial_range;
use crate::ordered::set_elements;
use crate::r1cs::LC;
use crate::r1cs::R1CSConstraint;
use crate::r1cs::Term;
use crate::r1cs::constraints_view;
use crate::sets::keys_are;
use crate::sets::lemma_prefix_set_step;
use crate::sets::prefix_set;
use crate::sets::set_difference;
use crate::sets::set_is_subset;
use crate::sets::set_union;
use crate::witness::Witness;
use crate::witness::WitnessID;
use std::collections::BTreeSet;
use vstd::prelude::*;

verus! {

/// A circuit ready for folding: its gates, and the description of a step
/// without the parts that depend on a witness.
#[derive(Debug, PartialEq, Eq)]
pub struct CircuitStructure {
    pub gates: Vec<AcirArithGate>,
    /// The number of witnesses and the constraints in here are not used.
    pub program: IVCProgram,
}

/// What a circuit structure says.
pub struct CircuitStructureView {
    pub gates: Seq<GateView>,
    pub program: IVCProgramView,
}

impl View for CircuitStructure {
    type V = CircuitStructureView;

    open spec fn view(&self) -> CircuitStructureView {
        CircuitStructureView { gates: gates_view(self.gates@), program: self.program@ }
    }
}

impl Clone for CircuitStructure {
    fn clone(&self) -> (r: Self)
        ensures
            r@ == self@,
    {
        let mut gates: Vec<AcirArithGate> = Vec::new();
        let mut i: usize = 0;
        while i < self.gates.len()
            invariant
                i <= self.gates.len(),
                gates_view(gates@) == gates_view(self.gates@).take(i as int),
            decreases self.gates.len() - i,
        {
            let ghost before = gates_view(gates@);
            let gate = self.gates[i].clone();
            gates.push(gate);
            i += 1;
            assert(gates_view(gates@) =~= before.push(gate@));
            assert(gates_view(self.gates@).take(i as int) =~= before.push(gate@));
        }
        proof {
            let all = gates_view(self.gates@);
            assert(all.take(i as int) =~= all);
        }
        CircuitStructure { gates, program: self.program.clone() }
    }
}

/// The state of an expansion as the executable code holds it.
pub open spec fn expansion_state(
    witness: Witness,
    num_witness: u32,
    constraints: Vec<R1CSConstraint>,
) -> Expansion {
    Expansion {
        assignment: witness@,
        num_witness: num_witness as nat,
        constraints: constraints_view(constraints@),
    }
}

/// Expands one gate on top of the state held in `witness`, `num_witness`
/// and `constraints`.
fn expand_gate_into(
    gate: &AcirArithGate,
    witness: &mut Witness,
    num_witness: &mut u32,
    constraints: &mut Vec<R1CSConstraint>,
) -> (r: Result<(), ProgramError>)
    requires
        old(witness).wf(),
    ensures
        match expand_gate(gate@, expansion_state(*old(witness), *old(num_witness), *old(constraints))) {
            Ok(e) => r is Ok && final(witness).wf() && expansion_state(
                *final(witness),
                *final(num_witness),
                *final(constraints),
            ) == e,
            Err(e) => r == Err::<(), ProgramError>(e),
        },
{
    let ghost st0 = expansion_state(*witness, *num_witness, *constraints);
    let mut big_lc_a: Vec<Term> = Vec::new();
    let mut j: usize = 0;
    while j < gate.mul_terms.len()
        invariant
            j <= gate.mul_terms.len(),
            witness.wf(),
            st0 == expansion_state(*old(witness), *old(num_witness), *old(constraints)),
            expand_mul_terms(gate.mul_terms@.take(j as int), st0) == Ok::<
                (Expansion, Seq<Term>),
                ProgramError,
            >((expansion_state(*witness, *num_witness, *constraints), big_lc_a@)),
        decreases gate.mul_terms.len() - j,
    {
        let (coeff, left, right) = gate.mul_terms[j];
        proof {
            let next = gate.mul_terms@.take(j + 1);
            assert(next.drop_last() =~= gate.mul_terms@.take(j as int));
            assert(next.last() == gate.mul_terms@[j as int]);
        }
        let left_val = match witness.get(left) {
            Some(v) => v,
            None => {
                proof {
                    lemma_mul_terms_error_persists(gate.mul_terms@, j + 1, st0);
                }
                return Err(ProgramError::MissingWitness(left));
            },
        };
        let right_val = match witness.get(right) {
            Some(v) => v,
            None => {
                proof {
                    lemma_mul_terms_error_persists(gate.mul_terms@, j + 1, st0);
                }
                return Err(ProgramError::MissingWitness(right));
            },
        };
        if *num_witness == u32::MAX {
            proof {
                lemma_mul_terms_error_persists(gate.mul_terms@, j + 1, st0);
            }
            return Err(ProgramError::TooManyWitnesses);
        }
        let prod_val = left_val.mul(&right_val);
        let prod_id = *num_witness;
        *num_witness = *num_witness + 1;
        let ghost before = constraints_view(constraints@);
        witness.insert(prod_id, prod_val);
        constraints.push(
            R1CSConstraint {
                a: LC::single(Term::LC { coefficient: left_val, var_id: left }),
                b: LC::single(Term::LC { coefficient: right_val, var_id: right }),
                c: LC::single(Term::LC { coefficient: prod_val, var_id: prod_id }),
            },
        );
        big_lc_a.push(Term::LC { coefficient: coeff, var_id: prod_id });
        proof {
            assert(constraints_view(constraints@) =~= before.push(
                bilinear_constraint(left_val, left, right_val, right, prod_val, prod_id),
            ));
        }
        j += 1;
    }
    proof {
        assert(gate.mul_terms@.take(j as int) =~= gate.mul_terms@);
    }
    let ghost products = big_lc_a@;
    let mut k: usize = 0;
    while k < gate.add_terms.len()
        invariant
            k <= gate.add_terms.len(),
            big_lc_a@ == products + linear_terms(gate.add_terms@).take(k as int),
        decreases gate.add_terms.len() - k,
    {
        let (coeff, id) = gate.add_terms[k];
        big_lc_a.push(Term::LC { coefficient: coeff, var_id: id });
        proof {
            let all = linear_terms(gate.add_terms@);
            assert(all.take(k + 1) =~= all.take(k as int).push(all[k as int]));
            assert(big_lc_a@ =~= products + all.take(k + 1));
        }
        k += 1;
    }
    big_lc_a.push(Term::Const(gate.constant_term));
    let one = FieldElement::one();
    proof {
        let all = linear_terms(gate.add_terms@);
        assert(all.take(k as int) =~= all);
        assert(big_lc_a@ =~= gate_combination(products, gate@));
        FieldElement::lemma_from_nat(1);
        one.lemma_unique(FieldElement::from_nat(1));
    }
    let ghost before = constraints_view(constraints@);
    let ghost combination = big_lc_a@;
    constraints.push(R1CSConstraint { a: LC(big_lc_a), b: LC::single(Term::Const(one)), c: LC::new() });
    proof {
        assert(constraints_view(constraints@) =~= before.push(closing_constraint(combination)));
    }
    Ok(())
}

/// The roles of the identifiers of a circuit, of which `private_outputs`
/// are to be private outputs. Fails where one of these is no return value.
pub fn extract_io(circuit: &Circuit, private_outputs: &BTreeSet<WitnessID>) -> (r: Result<
    IOProfile,
    MalformedProgramError,
>)
    ensures
        match r {
            Ok(io) => private_outputs@.subset_of(circuit.return_values@) && io@
                == extract_io_spec(
                circuit.private_parameters@.union(circuit.public_parameters@),
                circuit.public_parameters@.union(circuit.return_values@),
                circuit.return_values@,
                private_outputs@,
            ),
            Err(e) => e == MalformedProgramError::PrivateOutputNotReturned
                && !private_outputs@.subset_of(circuit.return_values@),
        },
{
    if !set_is_subset(private_outputs, &circuit.return_values) {
        return Err(MalformedProgramError::PrivateOutputNotReturned);
    }
    let public_outputs = set_difference(&circuit.return_values, private_outputs);
    let public_inputs = set_difference(&circuit.public_inputs(), &public_outputs);
    let private_inputs = set_difference(
        &set_difference(&circuit.circuit_arguments(), &public_outputs),
        &public_inputs,
    );
    Ok(
        IOProfile {
            public_inputs,
            private_inputs,
            public_outputs,
            private_outputs: private_outputs.clone(),
        },
    )
}

/// The assignment that gives zero to every identifier of a set.
pub open spec fn trivial_assignment(ids: Set<WitnessID>) -> Map<WitnessID, FieldElement> {
    Map::new(|k: WitnessID| ids.contains(k), |k: WitnessID| FieldElement::from_nat(0))
}

/// No gates name no identifiers.
proof fn lemma_gates_ids_empty(gates: Seq<GateView>)
    ensures
        gates_ids(gates.take(0)) == Set::<WitnessID>::empty(),
{
    assert(gates_ids(gates.take(0)) =~= Set::<WitnessID>::empty());
}

/// No multiplication terms name no identifiers.
proof fn lemma_mul_term_ids_empty(terms: Seq<(FieldElement, WitnessID, WitnessID)>)
    ensures
        mul_term_ids(terms.take(0)) == Set::<WitnessID>::empty(),
{
    assert(mul_term_ids(terms.take(0)) =~= Set::<WitnessID>::empty());
}

/// No addition terms name no identifiers.
proof fn lemma_add_term_ids_empty(terms: Seq<(FieldElement, WitnessID)>)
    ensures
        add_term_ids(terms.take(0)) == Set::<WitnessID>::empty(),
{
    assert(add_term_ids(terms.take(0)) =~= Set::<WitnessID>::empty());
}

/// The gates of a list of assert-zero opcodes.
pub open spec fn opcode_gates(opcodes: Seq<Opcode>) -> Seq<GateView> {
    Seq::new(opcodes.len(), |i: int| to_gate_view(expression_view(opcodes[i]->AssertZero_0)))
}

/// Whether `r` is what turning a circuit into a structure gives: one gate
/// for each opcode, the roles of its identifiers without private outputs,
/// and a program description that has neither witnesses nor constraints
/// yet; or the refusal of the first opcode that does not assert that an
/// expression is zero.
pub open spec fn structure_of(circuit: Circuit, r: Result<CircuitStructure, Error>) -> bool {
    match r {
        Ok(s) => {
            &&& supported_before(circuit.opcodes@, circuit.opcodes@.len() as int)
            &&& s.gates_view() == opcode_gates(circuit.opcodes@)
            &&& s.program.io@ == extract_io_spec(
                circuit.private_parameters@.union(circuit.public_parameters@),
                circuit.public_parameters@.union(circuit.return_values@),
                circuit.return_values@,
                Set::empty(),
            )
            &&& s.program.num_witness == 0
            &&& s.program.r1cs_constraints@.len() == 0
            &&& s.program.curve@ == CURVE_BN254@
            &&& s.program.version@ == VERSION_0_1@
        },
        Err(Error::UnsupportedProgram(e)) => exists|i: int|
            refuses_opcode(circuit.opcodes@, i, e),
        Err(_) => false,
    }
}

impl CircuitStructure {
    /// The structure of a circuit: one gate for each opcode, the roles of
    /// its identifiers without private outputs, and a program description
    /// that has neither witnesses nor constraints yet. Fails at the first
    /// opcode that does not assert that an expression is zero.
    pub fn from_circuit(circuit: &Circuit) -> (r: Result<CircuitStructure, Error>)
        ensures
            structure_of(*circuit, r),
            r matches Ok(s) ==> forall|i: int|
                0 <= i < s.gates@.len() ==> (#[trigger] s.gates@[i])@.wf(),
    {
        let mut gates: Vec<AcirArithGate> = Vec::new();
        let mut i: usize = 0;
        while i < circuit.opcodes.len()
            invariant
                i <= circuit.opcodes.len(),
                supported_before(circuit.opcodes@, i as int),
                gates@.len() == i,
                forall|j: int|
                    0 <= j < i ==> (#[trigger] gates@[j])@.wf() && gates@[j]@ == to_gate_view(
                        expression_view(circuit.opcodes@[j]->AssertZero_0),
                    ),
            decreases circuit.opcodes.len() - i,
        {
            match AcirArithGate::from_opcode(&circuit.opcodes[i]) {
                Ok(gate) => {
                    gates.push(gate);
                },
                Err(e) => {
                    proof {
                        assert(refuses_opcode(
                            circuit.opcodes@,
                            i as int,
                            e->UnsupportedProgram_0,
                        ));
                    }
                    return Err(e);
                },
            }
            i += 1;
        }
        let io = match extract_io(circuit, &BTreeSet::new()) {
            Ok(io) => io,
            Err(e) => {
                return Err(Error::UnsupportedProgram(UnsupportedProgramError::MalformedProgram(e)));
            },
        };
        let program = IVCProgram {
            io,
            num_witness: 0,
            r1cs_constraints: Vec::new(),
            curve: CURVE_BN254.to_owned(),
            version: VERSION_0_1.to_owned(),
        };
        let s = CircuitStructure { gates, program };
        proof {
            assert(s.gates_view() =~= opcode_gates(circuit.opcodes@));
        }
        Ok(s)
    }

    /// Whether the identifiers of `public_inputs` are the public inputs of
    /// the circuit, or those of `private_inputs` its private inputs.
    pub fn is_valid_input(&self, public_inputs: &Witness, private_inputs: &Witness) -> (r: bool)
        ensures
            r == (public_inputs@.dom() == self.program.io@.public_inputs || private_inputs@.dom()
                == self.program.io@.private_inputs),
    {
        keys_are(&public_inputs.0, &self.program.io.public_inputs) || keys_are(
            &private_inputs.0,
            &self.program.io.private_inputs,
        )
    }

    /// What the gates say, in order.
    pub open spec fn gates_view(self) -> Seq<GateView> {
        gates_view(self.gates@)
    }

    /// Every identifier that the IO profile or a term of a gate names.
    pub open spec fn referenced_ids(self) -> Set<WitnessID> {
        self.program.io@.all() + gates_ids(self.gates_view())
    }

    /// Every identifier that the IO profile or a term of a gate names.
    fn collect_ids(&self) -> (ids: BTreeSet<WitnessID>)
        ensures
            ids@ == self.referenced_ids(),
    {
        let io = &self.program.io;
        let mut ids = set_union(
            &set_union(&set_union(&io.public_inputs, &io.private_inputs), &io.public_outputs),
            &io.private_outputs,
        );
        let mut i: usize = 0;
        proof {
            lemma_gates_ids_empty(self.gates_view());
            assert(ids@ =~= self.program.io@.all() + gates_ids(self.gates_view().take(0)));
        }
        while i < self.gates.len()
            invariant
                i <= self.gates.len(),
                ids@ == self.program.io@.all() + gates_ids(self.gates_view().take(i as int)),
            decreases self.gates.len() - i,
        {
            let gate = &self.gates[i];
            let ghost before = ids@;
            let mut j: usize = 0;
            proof {
                lemma_mul_term_ids_empty(gate.mul_terms@);
                assert(ids@ =~= before + mul_term_ids(gate.mul_terms@.take(0)));
            }
            while j < gate.mul_terms.len()
                invariant
                    j <= gate.mul_terms.len(),
                    ids@ == before + mul_term_ids(gate.mul_terms@.take(j as int)),
                decreases gate.mul_terms.len() - j,
            {
                let (_, left, right) = gate.mul_terms[j];
                proof {
                    lemma_mul_term_ids_step(gate.mul_terms@, j as int);
                }
                ids.insert(left);
                ids.insert(right);
                j += 1;
                assert(ids@ =~= before + mul_term_ids(gate.mul_terms@.take(j as int)));
            }
            let ghost middle = ids@;
            let mut k: usize = 0;
            proof {
                lemma_add_term_ids_empty(gate.add_terms@);
                assert(ids@ =~= middle + add_term_ids(gate.add_terms@.take(0)));
            }
            while k < gate.add_terms.len()
                invariant
                    k <= gate.add_terms.len(),
                    ids@ == middle + add_term_ids(gate.add_terms@.take(k as int)),
                decreases gate.add_terms.len() - k,
            {
                let (_, id) = gate.add_terms[k];
                proof {
                    lemma_add_term_ids_step(gate.add_terms@, k as int);
                }
                ids.insert(id);
                k += 1;
                assert(ids@ =~= middle + add_term_ids(gate.add_terms@.take(k as int)));
            }
            proof {
                lemma_gates_ids_step(self.gates_view(), i as int);
                assert(gate.mul_terms@.take(j as int) =~= gate.mul_terms@);
                assert(gate.add_terms@.take(k as int) =~= gate.add_terms@);
                assert(self.gates_view()[i as int] == gate@);
                assert(ids@ =~= self.program.io@.all() + gates_ids(
                    self.gates_view().take(i + 1),
                ));
            }
            i += 1;
        }
        proof {
            assert(self.gates_view().take(i as int) =~= self.gates_view());
        }
        ids
    }

    /// The witness that gives zero to every identifier that the IO profile
    /// or a term of a gate names. Fails unless these identifiers are
    /// `0, 1, .., n - 1` for some `n` above zero.
    pub fn make_trivial_witness(&self) -> (r: Result<Witness, Error>)
        ensures
            match r {
                Ok(w) => is_initial_range(self.referenced_ids()) && w.wf() && w@
                    == trivial_assignment(self.referenced_ids()),
                Err(e) => !is_initial_range(self.referenced_ids()) && e
                    == Error::IVCProgramError(ProgramError::SparseWitnessIds),
            },
    {
        let ids = self.collect_ids();
        let items = set_elements(&ids);
        proof {
            lemma_initial_range(items@, ids@);
        }
        if items.len() == 0 {
            return Err(Error::IVCProgramError(ProgramError::SparseWitnessIds));
        }
        let max = items[items.len() - 1];
        if max as usize != items.len() - 1 {
            return Err(Error::IVCProgramError(ProgramError::SparseWitnessIds));
        }
        let zero = FieldElement::zero();
        proof {
            FieldElement::lemma_from_nat(0);
            zero.lemma_unique(FieldElement::from_nat(0));
        }
        let mut w = Witness::new();
        let mut i: usize = 0;
        proof {
            assert(prefix_set(items@, 0) =~= Set::<WitnessID>::empty());
            assert(w@ =~= Map::new(
                |k: WitnessID| prefix_set(items@, 0).contains(k),
                |k: WitnessID| FieldElement::from_nat(0),
            ));
        }
        while i < items.len()
            invariant
                i <= items.len(),
                zero == FieldElement::from_nat(0),
                zero.wf(),
                w.wf(),
                w@ == Map::new(
                    |k: WitnessID| prefix_set(items@, i as int).contains(k),
                    |k: WitnessID| FieldElement::from_nat(0),
                ),
            decreases items.len() - i,
        {
            proof {
                lemma_prefix_set_step(items@, i as int);
            }
            w.insert(items[i], zero);
            i += 1;
            assert(w@ =~= Map::new(
                |k: WitnessID| prefix_set(items@, i as int).contains(k),
                |k: WitnessID| FieldElement::from_nat(0),
            ));
        }
        proof {
            assert(items@.take(items.len() as int) =~= items@);
            assert(w@ =~= Map::new(
                |k: WitnessID| self.referenced_ids().contains(k),
                |k: WitnessID| FieldElement::from_nat(0),
            ));
        }
        Ok(w)
    }

    /// Whether `r` is what compiling the circuit gives. Where the
    /// identifiers in use are not `0, 1, .., n - 1` it fails; else it is
    /// the program description of the expansion of the gates over the
    /// assignment that gives zero to each of them, or the failure of that
    /// expansion.
    pub open spec fn program_of(self, r: Result<IVCProgram, Error>) -> bool {
        if !is_initial_range(self.referenced_ids()) {
            r == Err::<IVCProgram, Error>(Error::IVCProgramError(ProgramError::SparseWitnessIds))
        } else {
            match expansion(self.gates_view(), trivial_assignment(self.referenced_ids())) {
                Ok(e) => r matches Ok(program) && e.num_witness == program.num_witness
                    && e.constraints == constraints_view(program.r1cs_constraints@) && program.io@
                    == self.program.io@ && program.curve@ == self.program.curve@
                    && program.version@ == self.program.version@,
                Err(pe) => r == Err::<IVCProgram, Error>(Error::IVCProgramError(pe)),
            }
        }
    }

    /// The program description of the circuit: that of the step made from
    /// the trivial witness.
    pub fn compile(&self) -> (r: Result<IVCProgram, Error>)
        ensures
            self.program_of(r),
    {
        let solved_witness = match self.make_trivial_witness() {
            Ok(w) => w,
            Err(e) => {
                return Err(e);
            },
        };
        match self.make_step(&solved_witness) {
            Ok(step) => Ok(step.program),
            Err(e) => Err(e),
        }
    }

    /// Whether `r` is the step that the gates and a solved assignment
    /// make: the expanded assignment, the number of its identifiers and
    /// the constraints of the expansion, with the IO profile, curve and
    /// version of the circuit; or the failure of the expansion.
    pub open spec fn step_of(
        self,
        solved: Map<WitnessID, FieldElement>,
        r: Result<Step, Error>,
    ) -> bool {
        match expansion(self.gates_view(), solved) {
            Ok(e) => r matches Ok(step) && expansion_state(
                step.witness,
                step.program.num_witness,
                step.program.r1cs_constraints,
            ) == e && step.program.io@ == self.program.io@ && step.program.curve@
                == self.program.curve@ && step.program.version@ == self.program.version@,
            Err(e) => r == Err::<Step, Error>(Error::IVCProgramError(e)),
        }
    }

    /// Making a step is a function of the gates and the solved assignment:
    /// two steps made from the same of both have the same assignment, the
    /// same number of identifiers and the same constraints, term for term,
    /// and two failures are the same failure.
    pub proof fn lemma_make_step_deterministic(
        self,
        solved: Map<WitnessID, FieldElement>,
        first: Result<Step, Error>,
        second: Result<Step, Error>,
    )
        requires
            self.step_of(solved, first),
            self.step_of(solved, second),
        ensures
            match (first, second) {
                (Ok(a), Ok(b)) => a.witness@ == b.witness@ && a.program@ == b.program@,
                (Err(a), Err(b)) => a == b,
                _ => false,
            },
    {
    }

    /// Expands the gates over a solved witness into a step: the witness
    /// with one more entry for each multiplication term, and the rank-1
    /// constraints over it. Fails where a factor of a multiplication term
    /// has no value, or where the identifiers no longer fit a `u32`.
    pub fn make_step(&self, solved_witness: &Witness) -> (r: Result<Step, Error>)
        requires
            solved_witness.wf(),
        ensures
            self.step_of(solved_witness@, r),
            r matches Ok(step) ==> step.witness.wf(),
    {
        let mut witness = solved_witness.clone();
        let len = witness.len();
        if len > u32::MAX as usize {
            return Err(Error::IVCProgramError(ProgramError::TooManyWitnesses));
        }
        let mut num_witness: u32 = len as u32;
        let mut r1cs_constraints: Vec<R1CSConstraint> = Vec::new();
        let ghost start = expansion_state(witness, num_witness, r1cs_constraints);
        proof {
            assert(constraints_view(r1cs_constraints@) =~= Seq::empty());
        }
        let mut i: usize = 0;
        while i < self.gates.len()
            invariant
                i <= self.gates.len(),
                witness.wf(),
                expansion_start(solved_witness@) == Ok::<Expansion, ProgramError>(start),
                expand_gates(self.gates_view().take(i as int), start) == Ok::<
                    Expansion,
                    ProgramError,
                >(expansion_state(witness, num_witness, r1cs_constraints)),
            decreases self.gates.len() - i,
        {
            proof {
                let next = self.gates_view().take(i + 1);
                assert(next.drop_last() =~= self.gates_view().take(i as int));
                assert(next.last() == self.gates@[i as int]@);
            }
            match expand_gate_into(&self.gates[i], &mut witness, &mut num_witness, &mut r1cs_constraints) {
                Ok(()) => {},
                Err(e) => {
                    proof {
                        lemma_gates_error_persists(self.gates_view(), i + 1, start);
                    }
                    return Err(Error::IVCProgramError(e));
                },
            }
            i += 1;
        }
        proof {
            assert(self.gates_view().take(i as int) =~= self.gates_view());
        }
        let program = IVCProgram {
            io: self.program.io.clone(),
            num_witness,
            r1cs_constraints,
            curve: self.program.curve.clone(),
            version: self.program.version.clone(),
        };
        Ok(Step { witness, program })
    }
}

} // verus!
