use acvm::acir::native_types::Expression;
use acvm::acir::native_types::Witness as AcvmWitness;
use noir_ivc::constants::NOIR_VERSION_0_33;
use noir_ivc::gate::Opcode;
use noir_ivc::ivc::MalformedProgramError;
use noir_ivc::load::check_supported;
use noir_ivc::load::is_supported_version;
use noir_ivc::load::Circuit;
use noir_ivc::load::Program;
use noir_ivc::load::UnsupportedProgramError;
use noir_ivc::load_circuit;
use noir_ivc::Error;
use std::collections::BTreeSet;

fn set(ids: &[u32]) -> BTreeSet<u32> {
    ids.iter().cloned().collect()
}

fn assert_zero(id: u32) -> Opcode {
    let mut e = Expression::default();
    e.push_addition_term(acvm::FieldElement::one(), AcvmWitness(id));
    Opcode::AssertZero(e)
}

fn circuit(opcodes: Vec<Opcode>, private: &[u32], public: &[u32], returns: &[u32]) -> Circuit {
    Circuit {
        opcodes,
        private_parameters: set(private),
        public_parameters: set(public),
        return_values: set(returns),
    }
}

fn good_circuit() -> Circuit {
    circuit(vec![assert_zero(0), assert_zero(2)], &[1], &[0], &[2])
}

#[test]
fn a_program_of_one_supported_function_is_accepted() {
    let program = Program { functions: vec![good_circuit()], unconstrained_functions: 0 };
    assert_eq!(check_supported(&program), Ok(()));
    assert_eq!(load_circuit(program), Ok(good_circuit()));
    let no_opcodes = Program { functions: vec![circuit(vec![], &[], &[4], &[7])], unconstrained_functions: 0 };
    assert_eq!(check_supported(&no_opcodes), Ok(()));
}

#[test]
fn the_number_of_functions_must_be_one() {
    let none = Program { functions: vec![], unconstrained_functions: 0 };
    assert_eq!(check_supported(&none), Err(UnsupportedProgramError::MultipleFunctions(0)));
    let two = Program { functions: vec![good_circuit(), good_circuit()], unconstrained_functions: 3 };
    assert_eq!(check_supported(&two), Err(UnsupportedProgramError::MultipleFunctions(2)));
    assert_eq!(
        load_circuit(two),
        Err(Error::UnsupportedProgram(UnsupportedProgramError::MultipleFunctions(2)))
    );
}

#[test]
fn unconstrained_functions_are_refused() {
    let program = Program { functions: vec![good_circuit()], unconstrained_functions: 2 };
    assert_eq!(check_supported(&program), Err(UnsupportedProgramError::UnconstrainedFunctions(2)));
}

#[test]
fn the_first_other_opcode_is_refused() {
    let opcodes = vec![
        assert_zero(0),
        Opcode::Other("MEM (id: 1)".to_string()),
        assert_zero(2),
        Opcode::Other("CALL func 3".to_string()),
    ];
    // the profile is bad too, but the opcodes are looked at first
    let program = Program { functions: vec![circuit(opcodes, &[1], &[], &[2])], unconstrained_functions: 0 };
    assert_eq!(
        check_supported(&program),
        Err(UnsupportedProgramError::NonAssertZeroOpcode("MEM (id: 1)".to_string()))
    );
}

#[test]
fn a_profile_that_cannot_fold_is_refused() {
    // the only public identifier is a return value, so nothing is left as public input
    let no_input = Program { functions: vec![circuit(vec![assert_zero(2)], &[1], &[], &[2])], unconstrained_functions: 0 };
    assert_eq!(
        check_supported(&no_input),
        Err(UnsupportedProgramError::MalformedProgram(MalformedProgramError::NoPublicInput))
    );
    let two_inputs = Program { functions: vec![circuit(vec![], &[], &[0, 1], &[2])], unconstrained_functions: 0 };
    assert_eq!(
        check_supported(&two_inputs),
        Err(UnsupportedProgramError::MalformedProgram(MalformedProgramError::PublicInputOutputMismatch))
    );
    // a public parameter that is returned counts as output only
    let returned = Program { functions: vec![circuit(vec![], &[], &[0, 1], &[1])], unconstrained_functions: 0 };
    assert_eq!(check_supported(&returned), Ok(()));
}

#[test]
fn one_compiler_version_is_accepted() {
    assert!(is_supported_version("0.33.0+325dac54efb6f99201de9fdeb0a507d45189607d"));
    assert!(is_supported_version(NOIR_VERSION_0_33));
    assert!(!is_supported_version("0.33.0"));
    assert!(!is_supported_version("0.34.0+325dac54efb6f99201de9fdeb0a507d45189607d"));
    assert!(!is_supported_version(""));
}

#[test]
fn arguments_and_public_inputs_are_unions() {
    let c = circuit(vec![], &[5, 1], &[1, 3], &[3, 8]);
    assert_eq!(c.circuit_arguments(), set(&[1, 3, 5]));
    assert_eq!(c.public_inputs(), set(&[1, 3, 8]));
}
