use acvm::acir::native_types::Expression;
use acvm::acir::native_types::Witness as AcvmWitness;
use bellpepper_core::test_cs::TestConstraintSystem;
use bellpepper_core::ConstraintSystem;
use bellpepper_core::LinearCombination;
use bellpepper_core::Variable;
use ff::Field;
use ff::PrimeField;
use noir_ivc::compile;
use noir_ivc::execute::UnexecutedCircuit;
use noir_ivc::execute_steps;
use noir_ivc::field::FieldElement;
use noir_ivc::gate::Opcode;
use noir_ivc::input::IO;
use noir_ivc::ivc::IVCProgram;
use noir_ivc::ivc::ProgramError;
use noir_ivc::load::Circuit;
use noir_ivc::load::Program;
use noir_ivc::load_circuit;
use noir_ivc::r1cs::Term;
use noir_ivc::r1cs::LC;
use noir_ivc::witness::Witness;
use noir_ivc::CircuitStructure;
use noir_ivc::Error;
use noir_ivc::ExecutionResult;
use std::collections::BTreeMap;
use std::collections::BTreeSet;

type F = halo2curves::bn256::Fr;

fn field(b: F) -> FieldElement {
    FieldElement::from_limbs(b.into()).unwrap()
}

fn fr(b: &FieldElement) -> F {
    F::from_raw(b.to_limbs())
}

fn set(ids: &[u32]) -> BTreeSet<u32> {
    ids.iter().cloned().collect()
}

fn witness(entries: &[(u32, F)]) -> Witness {
    Witness(entries.iter().map(|(k, v)| (*k, field(*v))).collect::<BTreeMap<_, _>>())
}

/// `output = invert(input)`: `x * hint - 1 = 0` and `out - hint = 0`, with
/// `x` the public parameter 0, `hint` the private parameter 1 and `out` the
/// return value 2.
fn invert_circuit() -> Circuit {
    let one = acvm::FieldElement::one();
    let mut product = Expression::default();
    product.push_multiplication_term(one, AcvmWitness(0), AcvmWitness(1));
    product.q_c = -one;
    let mut copy = Expression::default();
    copy.push_addition_term(one, AcvmWitness(2));
    copy.push_addition_term(-one, AcvmWitness(1));
    Circuit {
        opcodes: vec![Opcode::AssertZero(product), Opcode::AssertZero(copy)],
        private_parameters: set(&[1]),
        public_parameters: set(&[0]),
        return_values: set(&[2]),
    }
}

fn invert_program() -> Program {
    Program { functions: vec![invert_circuit()], unconstrained_functions: 0 }
}

fn combination(lc: &LC, variables: &BTreeMap<u32, Variable>) -> LinearCombination<F> {
    let mut out = LinearCombination::<F>::zero();
    for term in &lc.0 {
        out = match term {
            Term::LC { coefficient, var_id } => out + (fr(coefficient), variables[var_id]),
            Term::Const(c) => out + (fr(c), TestConstraintSystem::<F>::one()),
        };
    }
    out
}

/// Puts a program and a witness for it into a constraint system.
fn prove(program: &IVCProgram, witness: &Witness, cs: &mut TestConstraintSystem<F>) {
    let mut variables = BTreeMap::new();
    for (id, value) in &witness.0 {
        let value = fr(value);
        let variable = cs.alloc(|| format!("w{}", id), || Ok(value)).unwrap();
        variables.insert(*id, variable);
    }
    for (i, constraint) in program.r1cs_constraints.iter().enumerate() {
        let a = combination(&constraint.a, &variables);
        let b = combination(&constraint.b, &variables);
        let c = combination(&constraint.c, &variables);
        cs.enforce(|| format!("c{}", i), |_| a, |_| b, |_| c);
    }
}

struct Chain {
    structure: CircuitStructure,
    program: IVCProgram,
    results: Vec<ExecutionResult>,
    witnesses: Vec<Witness>,
    inputs: Vec<Witness>,
}

fn run_chain() -> Chain {
    // 1. compile
    let noir_circuit = load_circuit(invert_program()).unwrap();
    let (circuit_structure, ivc_program) = compile(&noir_circuit).unwrap();

    // 2. execute
    let io_profile = circuit_structure.program.io.clone();
    let first = IO(vec![field(F::from_u128(2))]).make_witness(&io_profile);
    let two_inverse = F::from(2).invert().unwrap();
    let hints = vec![
        IO(vec![field(F::from_str_vartime(&decimal(&two_inverse)).unwrap())]),
        IO(vec![field(F::from_str_vartime("2").unwrap())]),
    ];
    let private_inputs: Vec<Witness> = hints
        .iter()
        .map(|hint| Witness(io_profile.private_inputs.iter().cloned().zip(hint.0.iter().cloned()).collect()))
        .collect();
    let mut chain = Chain {
        structure: circuit_structure.clone(),
        program: ivc_program,
        results: Vec::new(),
        witnesses: Vec::new(),
        inputs: vec![first.clone()],
    };
    for res in execute_steps(circuit_structure, first, 0, private_inputs) {
        let (res, wit, io) = res.unwrap();
        chain.inputs.push(io.make_witness(&io_profile));
        chain.witnesses.push(wit);
        chain.results.push(res);
    }
    chain
}

fn decimal(x: &F) -> String {
    let mut digits = Vec::new();
    let mut limbs: [u64; 4] = (*x).into();
    loop {
        let mut rem: u128 = 0;
        for limb in limbs.iter_mut().rev() {
            let cur = (rem << 64) | (*limb as u128);
            *limb = (cur / 10) as u64;
            rem = cur % 10;
        }
        digits.push(char::from(b'0' + rem as u8));
        if limbs == [0, 0, 0, 0] {
            break;
        }
    }
    digits.iter().rev().collect()
}

#[test]
fn test_compile_and_execute() {
    let chain = run_chain();
    assert_eq!(chain.results.len(), 2);
    assert_eq!(chain.witnesses.len(), 2);
    assert_eq!(chain.inputs.len(), 3);
}

#[test]
fn test_compile_execute_cs() {
    let chain = run_chain();

    let witness_0 = chain.witnesses[0].clone();
    let witness_1 = chain.witnesses[1].clone();

    let program = chain.program.clone();
    {
        let mut cs = TestConstraintSystem::<F>::new();
        prove(&program, &witness_0, &mut cs.namespace(|| "prove").get_root());
        assert!(cs.is_satisfied());
    }

    {
        let mut cs = TestConstraintSystem::<F>::new();
        prove(&program, &witness_1, &mut cs.namespace(|| "prove").get_root());
        assert!(cs.is_satisfied());
    }
}

#[test]
fn chain_threads_the_output_into_the_next_input() {
    let chain = run_chain();
    let half = F::from(2).invert().unwrap();
    assert_eq!(chain.results[0].iteration_number, 0);
    assert_eq!(chain.results[1].iteration_number, 1);
    assert_eq!(chain.results[0].public_input, witness(&[(0, F::from(2))]));
    assert_eq!(chain.results[0].private_input, witness(&[(1, half)]));
    assert_eq!(chain.results[0].public_output, witness(&[(2, half)]));
    assert_eq!(chain.results[0].private_output, witness(&[]));
    assert_eq!(chain.results[1].public_input, witness(&[(0, half)]));
    assert_eq!(chain.results[1].private_input, witness(&[(1, F::from(2))]));
    assert_eq!(chain.results[1].public_output, witness(&[(2, F::from(2))]));
    assert_eq!(chain.inputs[1], witness(&[(0, half)]));
    assert_eq!(chain.inputs[2], witness(&[(0, F::from(2))]));
    // each expanded witness: the solved one and the product of its one multiplication term
    assert_eq!(chain.witnesses[0], witness(&[(0, F::from(2)), (1, half), (2, half), (3, F::ONE)]));
    assert_eq!(chain.witnesses[1], witness(&[(0, half), (1, F::from(2)), (2, F::from(2)), (3, F::ONE)]));
}

#[test]
fn each_step_satisfies_its_own_constraints() {
    let chain = run_chain();
    for i in 0..2 {
        let solved = Witness(
            chain.witnesses[i].0.iter().filter(|(k, _)| **k < 3).map(|(k, v)| (*k, *v)).collect(),
        );
        let step = chain.structure.make_step(&solved).unwrap();
        assert_eq!(step.witness, chain.witnesses[i]);
        assert_eq!(step.program.num_witness, 4);
        assert_eq!(step.program.r1cs_constraints.len(), 3);
        let mut cs = TestConstraintSystem::<F>::new();
        prove(&step.program, &step.witness, &mut cs);
        assert!(cs.is_satisfied());
    }
}

#[test]
fn a_wrong_witness_breaks_the_closing_constraint() {
    let chain = run_chain();
    let wrong = witness(&[(0, F::from(2)), (1, F::from(3)), (2, F::from(3))]);
    let step = chain.structure.make_step(&wrong).unwrap();
    let mut cs = TestConstraintSystem::<F>::new();
    prove(&step.program, &step.witness, &mut cs);
    assert!(!cs.is_satisfied());
    assert_eq!(cs.which_is_unsatisfied(), Some("c1"));
}

#[test]
fn an_unsatisfiable_step_is_a_solve_error() {
    let (structure, _) = compile(&invert_circuit()).unwrap();
    let state = UnexecutedCircuit::new(7, witness(&[(0, F::from(2))]), structure.clone());
    match state.execute(witness(&[(1, F::from(3))])) {
        Err(Error::ACVMSolveError(status)) => assert!(status.contains("UnsatisfiedConstrain"), "{}", status),
        other => panic!("{:?}", other.map(|_| ())),
    }
    let outputs = execute_steps(
        structure,
        witness(&[(0, F::from(2))]),
        0,
        vec![witness(&[(1, F::from(3))]), witness(&[(1, F::from(2).invert().unwrap())])],
    );
    assert_eq!(outputs.len(), 1);
    assert!(matches!(outputs[0], Err(Error::ACVMSolveError(_))));
}

#[test]
fn a_failure_ends_the_chain_after_the_steps_before_it() {
    let (structure, _) = compile(&invert_circuit()).unwrap();
    let half = F::from(2).invert().unwrap();
    let outputs = execute_steps(
        structure,
        witness(&[(0, F::from(2))]),
        5,
        vec![witness(&[(1, half)]), witness(&[(1, F::from(5))]), witness(&[(1, F::from(2))])],
    );
    assert_eq!(outputs.len(), 2);
    let (result, _, next) = outputs[0].as_ref().unwrap();
    assert_eq!(result.iteration_number, 5);
    assert_eq!(next, &IO(vec![field(half)]));
    assert!(matches!(outputs[1], Err(Error::ACVMSolveError(_))));
}

#[test]
fn inputs_that_fit_neither_set_are_invalid() {
    let (structure, _) = compile(&invert_circuit()).unwrap();
    let half = F::from(2).invert().unwrap();
    let state = UnexecutedCircuit::new(0, witness(&[(9, F::from(2))]), structure.clone());
    assert_eq!(state.execute(witness(&[(8, half)])).err(), Some(Error::InvalidInput));
    // one of the two sets is enough
    assert!(structure.is_valid_input(&witness(&[(0, F::ONE)]), &witness(&[(8, F::ONE)])));
    assert!(structure.is_valid_input(&witness(&[(9, F::ONE)]), &witness(&[(1, F::ONE)])));
    assert!(structure.is_valid_input(&witness(&[(0, F::ONE)]), &witness(&[(1, F::ONE)])));
    assert!(!structure.is_valid_input(&witness(&[(9, F::ONE)]), &witness(&[(8, F::ONE)])));
    assert!(!structure.is_valid_input(&witness(&[]), &witness(&[])));
    assert!(!structure.is_valid_input(&witness(&[(0, F::ONE), (1, F::ONE)]), &witness(&[])));
}

#[test]
fn a_private_input_takes_the_place_of_a_public_one() {
    let (structure, _) = compile(&invert_circuit()).unwrap();
    let half = F::from(2).invert().unwrap();
    // the private input is valid; it also gives identifier 0 a value, which wins
    let state = UnexecutedCircuit::new(0, witness(&[(0, F::from(7))]), structure);
    let private = witness(&[(1, half)]);
    assert_eq!(noir_ivc::execute::merge(&witness(&[(0, F::from(7)), (3, F::ONE)]), &witness(&[(0, F::from(2))])),
        witness(&[(0, F::from(2)), (3, F::ONE)]));
    assert!(matches!(state.execute(private), Err(Error::ACVMSolveError(_))));
}

#[test]
fn complete_names_the_first_missing_identifier() {
    let (structure, _) = compile(&invert_circuit()).unwrap();
    let half = F::from(2).invert().unwrap();
    let state = UnexecutedCircuit::new(3, witness(&[(0, F::from(2))]), structure);
    assert_eq!(
        state.clone().complete(&witness(&[(1, half), (2, half)])).err(),
        Some(Error::IVCProgramError(ProgramError::MissingWitness(0)))
    );
    assert_eq!(
        state.clone().complete(&witness(&[(0, F::from(2)), (2, half)])).err(),
        Some(Error::IVCProgramError(ProgramError::MissingWitness(1)))
    );
    assert_eq!(
        state.clone().complete(&witness(&[(0, F::from(2)), (1, half)])).err(),
        Some(Error::IVCProgramError(ProgramError::MissingWitness(2)))
    );
    let (result, expanded, next) = state.complete(&witness(&[(0, F::from(2)), (1, half), (2, half)])).unwrap();
    assert_eq!(result.iteration_number, 3);
    assert_eq!(next.iteration_number, 4);
    assert_eq!(next.public_input, witness(&[(0, half)]));
    assert_eq!(expanded.len(), 4);
}
