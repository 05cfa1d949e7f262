use acvm::acir::native_types::Expression;
use acvm::acir::native_types::Witness as AcvmWitness;
use ff::Field;
use noir_ivc::compile;
use noir_ivc::constants::CURVE_BN254;
use noir_ivc::field::FieldElement;
use noir_ivc::gate::AcirArithGate;
use noir_ivc::gate::Opcode;
use noir_ivc::ivc::IOProfile;
use noir_ivc::ivc::IVCProgram;
use noir_ivc::ivc::MalformedProgramError;
use noir_ivc::ivc::ProgramError;
use noir_ivc::ivc::VERSION_0_1;
use noir_ivc::load::Circuit;
use noir_ivc::load::UnsupportedProgramError;
use noir_ivc::program::extract_io;
use noir_ivc::r1cs::R1CSConstraint;
use noir_ivc::r1cs::Term;
use noir_ivc::r1cs::LC;
use noir_ivc::witness::Witness;
use noir_ivc::CircuitStructure;
use noir_ivc::Error;
use std::collections::BTreeMap;
use std::collections::BTreeSet;

type F = halo2curves::bn256::Fr;

fn field(b: F) -> FieldElement {
    FieldElement::from_limbs(b.into()).unwrap()
}

fn fr(b: &FieldElement) -> F {
    F::from_raw(b.to_limbs())
}

fn n(x: u64) -> FieldElement {
    FieldElement::from_u64(x)
}

fn set(ids: &[u32]) -> BTreeSet<u32> {
    ids.iter().cloned().collect()
}

fn witness(entries: &[(u32, F)]) -> Witness {
    Witness(entries.iter().map(|(k, v)| (*k, field(*v))).collect::<BTreeMap<_, _>>())
}

fn profile(public_inputs: &[u32], private_inputs: &[u32], public_outputs: &[u32], private_outputs: &[u32]) -> IOProfile {
    IOProfile {
        public_inputs: set(public_inputs),
        private_inputs: set(private_inputs),
        public_outputs: set(public_outputs),
        private_outputs: set(private_outputs),
    }
}

fn structure(gates: Vec<AcirArithGate>, io: IOProfile) -> CircuitStructure {
    CircuitStructure {
        gates,
        program: IVCProgram {
            io,
            num_witness: 0,
            r1cs_constraints: vec![],
            curve: CURVE_BN254.to_string(),
            version: VERSION_0_1.to_string(),
        },
    }
}

fn var(coefficient: F, var_id: u32) -> Term {
    Term::LC { coefficient: field(coefficient), var_id }
}

fn bilinear(left: (F, u32), right: (F, u32), product: (F, u32)) -> R1CSConstraint {
    R1CSConstraint {
        a: LC(vec![var(left.0, left.1)]),
        b: LC(vec![var(right.0, right.1)]),
        c: LC(vec![var(product.0, product.1)]),
    }
}

fn closing(terms: Vec<Term>) -> R1CSConstraint {
    R1CSConstraint { a: LC(terms), b: LC(vec![Term::Const(FieldElement::one())]), c: LC(vec![]) }
}

/// `2*w0*w1 + 3*w1*w1 - w2 - 22 = 0` and `w3*w0 + w2 = 0`.
fn two_gates() -> Vec<AcirArithGate> {
    vec![
        AcirArithGate {
            mul_terms: vec![(n(2), 0, 1), (n(3), 1, 1)],
            add_terms: vec![(field(-F::ONE), 2)],
            constant_term: field(-F::from(22)),
        },
        AcirArithGate { mul_terms: vec![(n(1), 3, 0)], add_terms: vec![(n(1), 2)], constant_term: n(0) },
    ]
}

fn solved() -> Witness {
    // 2*5*2 + 3*2*2 - 10 - 22 = 0 and (-2)*5 + 10 = 0
    witness(&[(0, F::from(5)), (1, F::from(2)), (2, F::from(10)), (3, -F::from(2))])
}

fn value(lc: &LC, w: &Witness) -> F {
    lc.0.iter().fold(F::ZERO, |sum, term| match term {
        Term::LC { coefficient, var_id } => sum + fr(coefficient) * fr(&w.0[var_id]),
        Term::Const(c) => sum + fr(c),
    })
}

#[test]
fn make_step_emits_one_constraint_for_each_product_and_one_for_each_gate() {
    let s = structure(two_gates(), profile(&[0], &[1, 3], &[2], &[]));
    let step = s.make_step(&solved()).unwrap();
    assert_eq!(
        step.witness,
        witness(&[
            (0, F::from(5)),
            (1, F::from(2)),
            (2, F::from(10)),
            (3, -F::from(2)),
            (4, F::from(10)),
            (5, F::from(4)),
            (6, -F::from(10)),
        ])
    );
    assert_eq!(step.program.num_witness, 7);
    assert_eq!(
        step.program.r1cs_constraints,
        vec![
            bilinear((F::from(5), 0), (F::from(2), 1), (F::from(10), 4)),
            bilinear((F::from(2), 1), (F::from(2), 1), (F::from(4), 5)),
            closing(vec![
                var(F::from(2), 4),
                var(F::from(3), 5),
                var(-F::ONE, 2),
                Term::Const(field(-F::from(22))),
            ]),
            bilinear((-F::from(2), 3), (F::from(5), 0), (-F::from(10), 6)),
            closing(vec![var(F::ONE, 6), var(F::ONE, 2), Term::Const(n(0))]),
        ]
    );
    assert_eq!(step.program.io, s.program.io);
    assert_eq!(step.program.curve, "halo2curves::bn256::fr::Fr");
    assert_eq!(step.program.version, s.program.version);
}

#[test]
fn every_constraint_of_a_step_holds_for_a_solved_witness() {
    let s = structure(two_gates(), profile(&[0], &[1, 3], &[2], &[]));
    let step = s.make_step(&solved()).unwrap();
    for c in &step.program.r1cs_constraints {
        assert_eq!(value(&c.a, &step.witness) * value(&c.b, &step.witness), value(&c.c, &step.witness));
    }
    // the closing constraints are the gates: their combinations are zero
    assert_eq!(value(&step.program.r1cs_constraints[2].a, &step.witness), F::ZERO);
    assert_eq!(value(&step.program.r1cs_constraints[4].a, &step.witness), F::ZERO);
}

#[test]
fn a_closing_constraint_has_the_value_of_its_gate() {
    let s = structure(two_gates(), profile(&[0], &[1, 3], &[2], &[]));
    let w = witness(&[(0, F::from(1)), (1, F::from(1)), (2, F::from(1)), (3, F::from(1))]);
    let step = s.make_step(&w).unwrap();
    let cs = &step.program.r1cs_constraints;
    // bilinear constraints hold whatever the witness
    for i in [0, 1, 3] {
        assert_eq!(value(&cs[i].a, &step.witness) * value(&cs[i].b, &step.witness), value(&cs[i].c, &step.witness));
    }
    // 2 + 3 - 1 - 22 and 1 + 1
    assert_eq!(value(&cs[2].a, &step.witness), -F::from(18));
    assert_eq!(value(&cs[4].a, &step.witness), F::from(2));
}

#[test]
fn make_step_twice_gives_the_same_step() {
    let s = structure(two_gates(), profile(&[0], &[1, 3], &[2], &[]));
    let first = s.make_step(&solved()).unwrap();
    let second = s.clone().make_step(&solved().clone()).unwrap();
    assert_eq!(first, second);
}

#[test]
fn make_step_fails_at_the_first_factor_without_a_value() {
    let s = structure(two_gates(), profile(&[0], &[1, 3], &[2], &[]));
    let no_right = witness(&[(0, F::from(5)), (2, F::from(10)), (3, F::from(1))]);
    assert_eq!(s.make_step(&no_right), Err(Error::IVCProgramError(ProgramError::MissingWitness(1))));
    let no_left = witness(&[(1, F::from(5)), (2, F::from(10))]);
    assert_eq!(s.make_step(&no_left), Err(Error::IVCProgramError(ProgramError::MissingWitness(0))));
    // with three entries the first product is number 3, and the second
    // gate finds it there
    let no_third = witness(&[(0, F::from(5)), (1, F::from(2)), (2, F::from(10))]);
    let step = s.make_step(&no_third).unwrap();
    assert_eq!(step.witness.get(3), Some(n(10)));
    assert_eq!(step.witness.get(5), Some(n(50)));
    // a factor that only a later gate needs
    let mut gates = two_gates();
    gates.push(AcirArithGate { mul_terms: vec![(n(1), 1, 30)], add_terms: vec![], constant_term: n(0) });
    let later = structure(gates, profile(&[0], &[1, 3], &[2], &[]));
    assert_eq!(later.make_step(&solved()), Err(Error::IVCProgramError(ProgramError::MissingWitness(30))));
    // an addition term is not looked up
    let no_sum = witness(&[(0, F::from(5)), (1, F::from(2)), (3, F::from(10))]);
    assert_eq!(s.make_step(&no_sum).unwrap().program.num_witness, 6);
}

#[test]
fn products_are_numbered_from_the_number_of_entries() {
    let gates = vec![AcirArithGate { mul_terms: vec![(n(1), 0, 9), (n(1), 2, 2)], add_terms: vec![], constant_term: n(0) }];
    let s = structure(gates, profile(&[0], &[], &[9], &[]));
    // two entries: the first product is number 2, and the second term finds it there
    let step = s.make_step(&witness(&[(0, F::from(3)), (9, F::from(4))])).unwrap();
    assert_eq!(
        step.witness,
        witness(&[(0, F::from(3)), (2, F::from(12)), (3, F::from(144)), (9, F::from(4))])
    );
    assert_eq!(step.program.num_witness, 4);
    // no gates: nothing but the witness
    let empty = structure(vec![], profile(&[0], &[], &[9], &[])).make_step(&witness(&[(5, F::ONE)])).unwrap();
    assert_eq!(empty.witness, witness(&[(5, F::ONE)]));
    assert_eq!(empty.program.num_witness, 1);
    assert!(empty.program.r1cs_constraints.is_empty());
}

#[test]
fn the_trivial_witness_gives_zero_to_every_identifier() {
    let s = structure(two_gates(), profile(&[0], &[1, 3], &[2], &[]));
    assert_eq!(
        s.make_trivial_witness(),
        Ok(witness(&[(0, F::ZERO), (1, F::ZERO), (2, F::ZERO), (3, F::ZERO)]))
    );
    // identifiers that only the profile names count too
    let s = structure(vec![], profile(&[0], &[2], &[1], &[3]));
    assert_eq!(s.make_trivial_witness().unwrap().len(), 4);
    let s = structure(
        vec![AcirArithGate { mul_terms: vec![(n(1), 1, 2)], add_terms: vec![(n(1), 3)], constant_term: n(0) }],
        profile(&[0], &[], &[], &[]),
    );
    assert_eq!(s.make_trivial_witness().unwrap().len(), 4);
}

#[test]
fn the_trivial_witness_needs_identifiers_without_gaps() {
    let sparse = Err(Error::IVCProgramError(ProgramError::SparseWitnessIds));
    // 0, 1, 2, 3 and 5
    let mut gates = two_gates();
    gates.push(AcirArithGate { mul_terms: vec![], add_terms: vec![(n(1), 5)], constant_term: n(0) });
    assert_eq!(structure(gates, profile(&[0], &[1, 3], &[2], &[])).make_trivial_witness(), sparse);
    // 1, 2, 3: zero is missing
    assert_eq!(structure(vec![], profile(&[1], &[2], &[3], &[])).make_trivial_witness(), sparse);
    assert_eq!(
        structure(
            vec![AcirArithGate { mul_terms: vec![(n(1), 0, 2)], add_terms: vec![], constant_term: n(0) }],
            profile(&[], &[], &[], &[])
        )
        .make_trivial_witness(),
        sparse
    );
    // no identifier at all
    assert_eq!(structure(vec![], profile(&[], &[], &[], &[])).make_trivial_witness(), sparse);
    assert_eq!(structure(vec![], profile(&[], &[], &[], &[])).compile(), Err(Error::IVCProgramError(ProgramError::SparseWitnessIds)));
}

#[test]
fn compile_gives_the_shape_of_a_step() {
    let s = structure(two_gates(), profile(&[0], &[1, 3], &[2], &[]));
    let program = s.compile().unwrap();
    assert_eq!(program.num_witness, 7);
    assert_eq!(
        program.r1cs_constraints,
        vec![
            bilinear((F::ZERO, 0), (F::ZERO, 1), (F::ZERO, 4)),
            bilinear((F::ZERO, 1), (F::ZERO, 1), (F::ZERO, 5)),
            closing(vec![
                var(F::from(2), 4),
                var(F::from(3), 5),
                var(-F::ONE, 2),
                Term::Const(field(-F::from(22))),
            ]),
            bilinear((F::ZERO, 3), (F::ZERO, 0), (F::ZERO, 6)),
            closing(vec![var(F::ONE, 6), var(F::ONE, 2), Term::Const(n(0))]),
        ]
    );
    assert_eq!(program.io, s.program.io);
}

fn circuit(opcodes: Vec<Opcode>, private: &[u32], public: &[u32], returns: &[u32]) -> Circuit {
    Circuit {
        opcodes,
        private_parameters: set(private),
        public_parameters: set(public),
        return_values: set(returns),
    }
}

#[test]
fn extract_io_gives_each_identifier_one_role() {
    let c = circuit(vec![], &[1, 4], &[0, 3], &[2, 3]);
    let io = extract_io(&c, &set(&[])).unwrap();
    assert_eq!(io, profile(&[0], &[1, 4], &[2, 3], &[]));
    let all: Vec<u32> = io
        .public_inputs
        .iter()
        .chain(io.private_inputs.iter())
        .chain(io.public_outputs.iter())
        .chain(io.private_outputs.iter())
        .cloned()
        .collect();
    assert_eq!(all.len(), all.iter().collect::<BTreeSet<_>>().len());
    // a return value that is a private parameter too is an output only
    let c = circuit(vec![], &[1, 2], &[0], &[2]);
    assert_eq!(extract_io(&c, &set(&[])), Ok(profile(&[0], &[1], &[2], &[])));
}

#[test]
fn a_private_output_stays_a_declared_public_input() {
    // the return value 2 is made a private output: it is no public output
    // any more, and so it is not taken out of the declared public inputs
    let c = circuit(vec![], &[1], &[0], &[2, 3]);
    assert_eq!(extract_io(&c, &set(&[2])), Ok(profile(&[0, 2], &[1], &[3], &[2])));
}

#[test]
fn a_private_output_must_be_a_return_value() {
    let c = circuit(vec![], &[1], &[0], &[2]);
    assert_eq!(extract_io(&c, &set(&[1])), Err(MalformedProgramError::PrivateOutputNotReturned));
    assert_eq!(extract_io(&c, &set(&[2, 5])), Err(MalformedProgramError::PrivateOutputNotReturned));
}

#[test]
fn a_circuit_becomes_gates_and_a_profile() {
    let mut e = Expression::from_field(acvm::FieldElement::from(-1_i128));
    e.push_multiplication_term(acvm::FieldElement::one(), AcvmWitness(0), AcvmWitness(1));
    let mut copy = Expression::default();
    copy.push_addition_term(acvm::FieldElement::one(), AcvmWitness(2));
    copy.push_addition_term(acvm::FieldElement::from(-1_i128), AcvmWitness(1));
    let c = circuit(vec![Opcode::AssertZero(e), Opcode::AssertZero(copy)], &[1], &[0], &[2]);
    let expected = structure(
        vec![
            AcirArithGate { mul_terms: vec![(n(1), 0, 1)], add_terms: vec![], constant_term: field(-F::ONE) },
            AcirArithGate { mul_terms: vec![], add_terms: vec![(n(1), 2), (field(-F::ONE), 1)], constant_term: n(0) },
        ],
        profile(&[0], &[1], &[2], &[]),
    );
    assert_eq!(CircuitStructure::from_circuit(&c), Ok(expected.clone()));
    assert_eq!(expected.program.version, "0.1");
    let (s, program) = compile(&c).unwrap();
    assert_eq!(s, expected);
    assert_eq!(program.num_witness, 4);
    assert_eq!(program.r1cs_constraints.len(), 3);
}

#[test]
fn a_circuit_with_another_opcode_has_no_structure() {
    let c = circuit(
        vec![Opcode::AssertZero(Expression::default()), Opcode::Other("DIR::TORADIX".to_string())],
        &[1],
        &[0],
        &[2],
    );
    let refused = Error::UnsupportedProgram(UnsupportedProgramError::NonAssertZeroOpcode("DIR::TORADIX".to_string()));
    assert_eq!(CircuitStructure::from_circuit(&c), Err(refused));
    assert!(compile(&c).is_err());
}
