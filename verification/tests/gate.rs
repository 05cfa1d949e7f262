use acvm::acir::native_types::Expression;
use acvm::acir::native_types::Witness as AcvmWitness;
use noir_ivc::field::FieldElement;
use noir_ivc::gate::AcirArithGate;
use noir_ivc::gate::Opcode;
use noir_ivc::load::UnsupportedProgramError;
use noir_ivc::Error;

type F = halo2curves::bn256::Fr;

fn field(b: F) -> FieldElement {
    FieldElement::from_limbs(b.into()).unwrap()
}

fn sample_gate() -> AcirArithGate {
    AcirArithGate {
        mul_terms: vec![
            (field(F::from(3)), 4, 2),
            (field(-F::from(1)), 0, 0),
            (field(F::from(3)), 4, 2),
            (FieldElement::zero(), 7, 1),
        ],
        add_terms: vec![
            (field(F::from(9)), 5),
            (field(-F::from(5)), 1),
            (field(F::from(9)), 5),
        ],
        constant_term: field(-F::from(16)),
    }
}

#[test]
fn a_gate_becomes_the_expression_with_the_same_terms() {
    let opcode = sample_gate().to_opcode().unwrap();
    let expected = Expression {
        mul_terms: vec![
            (acvm::FieldElement::from(3_i128), AcvmWitness(4), AcvmWitness(2)),
            (acvm::FieldElement::from(-1_i128), AcvmWitness(0), AcvmWitness(0)),
            (acvm::FieldElement::from(3_i128), AcvmWitness(4), AcvmWitness(2)),
            (acvm::FieldElement::zero(), AcvmWitness(7), AcvmWitness(1)),
        ],
        linear_combinations: vec![
            (acvm::FieldElement::from(9_i128), AcvmWitness(5)),
            (acvm::FieldElement::from(-5_i128), AcvmWitness(1)),
            (acvm::FieldElement::from(9_i128), AcvmWitness(5)),
        ],
        q_c: acvm::FieldElement::from(-16_i128),
    };
    assert_eq!(opcode, Opcode::AssertZero(expected.clone()));
    assert_eq!(sample_gate().to_expression().unwrap(), expected);
}

#[test]
fn an_expression_becomes_the_gate_with_the_same_terms() {
    let mut expression = Expression::from_field(acvm::FieldElement::from(12_i128));
    expression.push_multiplication_term(acvm::FieldElement::from(-2_i128), AcvmWitness(1), AcvmWitness(3));
    expression.push_addition_term(acvm::FieldElement::from(5_i128), AcvmWitness(8));
    expression.push_multiplication_term(acvm::FieldElement::one(), AcvmWitness(3), AcvmWitness(1));
    expression.push_addition_term(acvm::FieldElement::zero(), AcvmWitness(2));
    let gate = AcirArithGate::from_opcode(&Opcode::AssertZero(expression)).unwrap();
    assert_eq!(
        gate,
        AcirArithGate {
            mul_terms: vec![(field(-F::from(2)), 1, 3), (FieldElement::one(), 3, 1)],
            add_terms: vec![(FieldElement::from_u64(5), 8), (FieldElement::zero(), 2)],
            constant_term: FieldElement::from_u64(12),
        }
    );
}

#[test]
fn a_gate_comes_back_from_the_solver_form_term_for_term() {
    let gate = sample_gate();
    let back = AcirArithGate::from_opcode(&gate.to_opcode().unwrap()).unwrap();
    assert_eq!(back, gate);
    let empty = AcirArithGate { mul_terms: vec![], add_terms: vec![], constant_term: FieldElement::zero() };
    assert_eq!(AcirArithGate::from_opcode(&empty.to_opcode().unwrap()).unwrap(), empty);
    assert_eq!(gate.clone(), gate);
}

#[test]
fn another_opcode_is_refused_with_its_text() {
    let opcode = Opcode::Other("BRILLIG CALL func 0".to_string());
    assert_eq!(
        AcirArithGate::from_opcode(&opcode),
        Err(Error::UnsupportedProgram(UnsupportedProgramError::NonAssertZeroOpcode(
            "BRILLIG CALL func 0".to_string()
        )))
    );
}

#[test]
fn a_copy_of_an_opcode_has_the_same_terms() {
    let opcode = sample_gate().to_opcode().unwrap();
    let copy = opcode.clone();
    assert_eq!(copy, opcode);
    assert_eq!(AcirArithGate::from_opcode(&copy).unwrap(), sample_gate());
    let other = Opcode::Other("MEM".to_string());
    assert_eq!(other.clone(), other);
    assert_ne!(other, opcode);
}
